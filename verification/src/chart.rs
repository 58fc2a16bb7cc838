//! Charts: the data type that turns titled series of timestamped numbers into
//! chart objects kept in the state under the slug of their title.
use vstd::prelude::*;
use crate::json::{
    array_view, entries_get, entries_insert, entries_lookup, entries_put, entries_view,
    keys_sorted, lemma_entries_insert_get, lemma_entries_insert_sorted, lemma_view_array,
    lemma_view_object, Entries, Json, JsonNumber, JsonValue,
};
use crate::slug::{slug_of, Slug};
use crate::text::chars_lt;
use crate::data_utils::{filter_title_objects, title_block};

verus! {

/// What the x axis of a chart counts.
#[derive(Clone, Copy, Debug, PartialEq, Eq, Structural)]
pub enum ChartAxisXType {
    DateTime,
    Number,
}

/// A chart: a title, the kind of its x axis, its x points and one array of
/// y values per series.
#[derive(Debug)]
pub struct ChartObject {
    pub title: String,
    pub x_type: ChartAxisXType,
    pub x_points: Json,
    pub values: Vec<Json>,
}

/// Why adding entries to a chart failed.
#[derive(Clone, Copy, Debug, PartialEq, Eq, Structural)]
pub enum ChartError {
    XPointsNotArray,
    XNotArray,
    ValueNotArray,
    YNotArray,
}

impl ChartError {
    /// The message of the error.
    pub fn message(&self) -> (r: String)
        ensures
            r@ == chart_error_message(*self),
    {
        match self {
            ChartError::XPointsNotArray => owned("x_points not an array"),
            ChartError::XNotArray => owned("x not an array"),
            ChartError::ValueNotArray => owned("value not an array"),
            ChartError::YNotArray => owned("y[idx] not an array"),
        }
    }
}

pub open spec fn chart_error_message(e: ChartError) -> Seq<char> {
    match e {
        ChartError::XPointsNotArray => "x_points not an array"@,
        ChartError::XNotArray => "x not an array"@,
        ChartError::ValueNotArray => "value not an array"@,
        ChartError::YNotArray => "y[idx] not an array"@,
    }
}

/// An owned copy of a string slice.
pub fn owned(s: &str) -> (r: String)
    ensures
        r@ == s@,
{
    s.to_string()
}

/// The mathematical view of a chart.
pub struct ChartView {
    pub title: Seq<char>,
    pub x_type: ChartAxisXType,
    pub x_points: JsonValue,
    pub values: Seq<JsonValue>,
}

impl ChartObject {
    pub open spec fn view(&self) -> ChartView {
        ChartView {
            title: self.title@,
            x_type: self.x_type,
            x_points: self.x_points.view(),
            values: array_view(self.values@),
        }
    }
}

/// The name under which an axis type is written.
pub open spec fn x_kind_name(t: ChartAxisXType) -> Seq<char> {
    match t {
        ChartAxisXType::DateTime => "DateTime"@,
        ChartAxisXType::Number => "Number"@,
    }
}

/// The axis type a name stands for.
pub open spec fn x_kind_named(s: Seq<char>) -> Option<ChartAxisXType> {
    if s == "DateTime"@ {
        Some(ChartAxisXType::DateTime)
    } else if s == "Number"@ {
        Some(ChartAxisXType::Number)
    } else {
        None
    }
}

/// How a chart is written as a JSON object: `title`, `values`, `x_points`,
/// `x_type` (the axis type by its name).
pub open spec fn chart_to_json(c: ChartView) -> JsonValue {
    JsonValue::Object(
        seq![
            ("title"@, JsonValue::Str(c.title)),
            ("values"@, JsonValue::Array(c.values)),
            ("x_points"@, c.x_points),
            ("x_type"@, JsonValue::Str(x_kind_name(c.x_type))),
        ],
    )
}

/// How an axis type is read from JSON: its name as a string, or an object
/// with the name as its only key and `null` as its value.
pub open spec fn x_type_from_json(v: JsonValue) -> Option<ChartAxisXType> {
    match v {
        JsonValue::Str(s) => x_kind_named(s),
        JsonValue::Object(o) => if o.len() == 1 && o[0].1 is Null {
            x_kind_named(o[0].0)
        } else {
            None
        },
        _ => None,
    }
}

/// A chart from its four parts as JSON: a string title, an axis type, any x
/// points and an array of values.
pub open spec fn chart_from_parts(
    title: Option<JsonValue>,
    x_type: Option<JsonValue>,
    x_points: Option<JsonValue>,
    values: Option<JsonValue>,
) -> Option<ChartView> {
    match (title, x_type, x_points, values) {
        (Some(JsonValue::Str(t)), Some(xt), Some(xp), Some(JsonValue::Array(vs))) => match x_type_from_json(
            xt,
        ) {
            Some(ty) => Some(ChartView { title: t, x_type: ty, x_points: xp, values: vs }),
            None => None,
        },
        _ => None,
    }
}

/// How a chart is read from JSON: an object with the four keys (others are
/// ignored), or an array of exactly the four parts in the order title,
/// x_type, x_points, values.
pub open spec fn chart_from_json(v: JsonValue) -> Option<ChartView> {
    match v {
        JsonValue::Object(o) => chart_from_parts(
            entries_get(o, "title"@),
            entries_get(o, "x_type"@),
            entries_get(o, "x_points"@),
            entries_get(o, "values"@),
        ),
        JsonValue::Array(a) => if a.len() == 4 {
            chart_from_parts(Some(a[0]), Some(a[1]), Some(a[2]), Some(a[3]))
        } else {
            None
        },
        _ => None,
    }
}

/// A new chart: the title, a number axis, no points, no series.
pub open spec fn default_chart(title: Seq<char>) -> ChartView {
    ChartView {
        title,
        x_type: ChartAxisXType::Number,
        x_points: JsonValue::Array(Seq::empty()),
        values: Seq::empty(),
    }
}

/// The series after growing them with empty arrays to `n` where there are fewer.
pub open spec fn grown_values(values: Seq<JsonValue>, n: int) -> Seq<JsonValue> {
    if values.len() < n {
        values + Seq::new((n - values.len()) as nat, |i: int| JsonValue::Array(Seq::empty()))
    } else {
        values
    }
}

/// The first series index, from `i` on, at which appending stops: the series
/// is not an array, or there is no `y` for it, or that `y` is not an array.
pub open spec fn first_stop(vals: Seq<JsonValue>, y: Seq<JsonValue>, i: int) -> int
    decreases vals.len() - i,
{
    if i >= vals.len() {
        vals.len() as int
    } else if !(vals[i] is Array) || i >= y.len() || !(y[i] is Array) {
        i
    } else {
        first_stop(vals, y, i + 1)
    }
}

/// Adding entries reaches a series that is an array with no `y` for it, and
/// indexing `y` there panics.
pub open spec fn add_entries_panics(c: ChartView, x: JsonValue, y: Seq<JsonValue>) -> bool {
    let vals = grown_values(c.values, y.len() as int);
    let k = first_stop(vals, y, 0);
    c.x_points is Array && x is Array && k < vals.len() && vals[k] is Array && k >= y.len()
}

/// The chart and the outcome after adding the points `x` and one array of
/// values per series in `y`: the x points grow by `x`, the series grow to at
/// least as many as `y` has, and each series up to the first that cannot take
/// its values grows by them.
pub open spec fn add_entries_result(c: ChartView, x: JsonValue, y: Seq<JsonValue>) -> (
    ChartView,
    Result<(), ChartError>,
) {
    if !(c.x_points is Array) {
        (c, Err(ChartError::XPointsNotArray))
    } else if !(x is Array) {
        (c, Err(ChartError::XNotArray))
    } else {
        let vals = grown_values(c.values, y.len() as int);
        let k = first_stop(vals, y, 0);
        let appended = Seq::new(
            vals.len(),
            |i: int|
                if i < k {
                    JsonValue::Array(vals[i]->Array_0 + y[i]->Array_0)
                } else {
                    vals[i]
                },
        );
        let c2 = ChartView {
            x_points: JsonValue::Array(c.x_points->Array_0 + x->Array_0),
            values: appended,
            ..c
        };
        if k < vals.len() {
            (c2, Err(if vals[k] is Array { ChartError::YNotArray } else { ChartError::ValueNotArray }))
        } else {
            (c2, Ok(()))
        }
    }
}

proof fn lemma_first_stop(vals: Seq<JsonValue>, y: Seq<JsonValue>, i: int)
    requires
        0 <= i <= vals.len(),
    ensures
        i <= first_stop(vals, y, i) <= vals.len(),
        forall|j: int|
            i <= j < first_stop(vals, y, i) ==> (#[trigger] vals[j]) is Array && j < y.len() && y[j] is Array,
        first_stop(vals, y, i) < vals.len() ==> !(vals[first_stop(vals, y, i)] is Array) || first_stop(
            vals,
            y,
            i,
        ) >= y.len() || !(y[first_stop(vals, y, i)] is Array),
    decreases vals.len() - i,
{
    if i < vals.len() && !(!(vals[i] is Array) || i >= y.len() || !(y[i] is Array)) {
        lemma_first_stop(vals, y, i + 1);
    }
}

/// The concatenation of two arrays.
fn concat_arrays(a: &Json, b: &Json) -> (r: Json)
    requires
        a.view() is Array,
        b.view() is Array,
    ensures
        r.view() == JsonValue::Array(a.view()->Array_0 + b.view()->Array_0),
{
    match a {
        Json::Array(x) => match b {
            Json::Array(y) => {
                proof {
                    lemma_view_array(*x);
                    lemma_view_array(*y);
                }
                let mut out: Vec<Json> = Vec::new();
                let mut i: usize = 0;
                while i < x.len()
                    invariant
                        i <= x.len(),
                        out@.len() == i,
                        forall|j: int| 0 <= j < i ==> (#[trigger] out@[j]).view() == x@[j].view(),
                    decreases x.len() - i,
                {
                    out.push(x[i].deep_clone());
                    i = i + 1;
                }
                let mut i: usize = 0;
                while i < y.len()
                    invariant
                        i <= y.len(),
                        out@.len() == x@.len() + i,
                        forall|j: int| 0 <= j < x@.len() ==> (#[trigger] out@[j]).view() == x@[j].view(),
                        forall|j: int| 0 <= j < i ==> (#[trigger] out@[x@.len() + j]).view() == y@[j].view(),
                    decreases y.len() - i,
                {
                    out.push(y[i].deep_clone());
                    i = i + 1;
                }
                proof {
                    lemma_view_array(out);
                    assert forall|j: int| 0 <= j < out@.len() implies #[trigger] array_view(out@)[j] == (
                    array_view(x@) + array_view(y@))[j] by {
                        if j >= x@.len() {
                            assert(out@[x@.len() + (j - x@.len())] == out@[j]);
                        }
                    }
                    assert(array_view(out@) =~= array_view(x@) + array_view(y@));
                }
                Json::Array(out)
            },
            _ => Json::Null,
        },
        _ => Json::Null,
    }
}

fn is_array(a: &Json) -> (r: bool)
    ensures
        r == a.view() is Array,
{
    match a {
        Json::Array(_) => true,
        _ => false,
    }
}

impl ChartObject {
    /// Appends the points `x` to the x points and the arrays in `y` to the
    /// series, index by index, adding empty series where `y` has more.
    pub fn add_entries(&mut self, x: Json, y: Vec<Json>) -> (r: Result<(), ChartError>)
        requires
            !add_entries_panics(old(self).view(), x.view(), array_view(y@)),
        ensures
            (final(self).view(), r) == add_entries_result(old(self).view(), x.view(), array_view(y@)),
    {
        let ghost c0 = self.view();
        let ghost yv = array_view(y@);
        if !is_array(&self.x_points) {
            return Err(ChartError::XPointsNotArray);
        }
        if !is_array(&x) {
            return Err(ChartError::XNotArray);
        }
        let new_points = concat_arrays(&self.x_points, &x);
        self.x_points = new_points;
        let mut vals: Vec<Json> = Vec::new();
        std::mem::swap(&mut vals, &mut self.values);
        let ghost v0 = array_view(vals@);
        while vals.len() < y.len()
            invariant
                vals@.len() <= y@.len() || vals@.len() == v0.len(),
                v0.len() <= vals@.len(),
                forall|j: int| 0 <= j < v0.len() ==> (#[trigger] vals@[j]).view() == v0[j],
                forall|j: int| v0.len() <= j < vals@.len() ==> (#[trigger] vals@[j]).view() == JsonValue::Array(
                    Seq::empty(),
                ),
            decreases y.len() - vals.len(),
        {
            let e: Vec<Json> = Vec::new();
            proof {
                lemma_view_array(e);
                assert(array_view(e@) =~= Seq::empty());
            }
            vals.push(Json::Array(e));
        }
        let ghost grown = array_view(vals@);
        proof {
            assert(grown =~= grown_values(v0, yv.len() as int));
            lemma_first_stop(grown, yv, 0);
        }
        let ghost k = first_stop(grown, yv, 0);
        let mut idx: usize = 0;
        let mut result: Result<(), ChartError> = Ok(());
        while idx < vals.len()
            invariant_except_break
                idx <= k,
                result == Ok::<(), ChartError>(()),
            invariant
                idx <= vals@.len(),
                vals@.len() == grown.len(),
                yv == array_view(y@),
                k == first_stop(grown, yv, 0),
                k <= grown.len(),
                forall|j: int| 0 <= j < k ==> (#[trigger] grown[j]) is Array && j < yv.len() && yv[j] is Array,
                k < grown.len() ==> !(grown[k] is Array) || k >= yv.len() || !(yv[k] is Array),
                !(k < grown.len() && grown[k] is Array && k >= yv.len()),
                forall|j: int| 0 <= j < idx ==> (#[trigger] vals@[j]).view() == JsonValue::Array(
                    grown[j]->Array_0 + yv[j]->Array_0,
                ),
                forall|j: int| idx <= j < vals@.len() ==> (#[trigger] vals@[j]).view() == grown[j],
            ensures
                idx == k,
                k < grown.len() ==> result == Err::<(), ChartError>(
                    if grown[k] is Array {
                        ChartError::YNotArray
                    } else {
                        ChartError::ValueNotArray
                    },
                ),
                k == grown.len() ==> result == Ok::<(), ChartError>(()),
                forall|j: int| 0 <= j < idx ==> (#[trigger] vals@[j]).view() == JsonValue::Array(
                    grown[j]->Array_0 + yv[j]->Array_0,
                ),
                forall|j: int| idx <= j < vals@.len() ==> (#[trigger] vals@[j]).view() == grown[j],
                vals@.len() == grown.len(),
            decreases vals.len() - idx,
        {
            if !is_array(&vals[idx]) {
                result = Err(ChartError::ValueNotArray);
                break;
            }
            if !is_array(&y[idx]) {
                assert(yv[idx as int] == y@[idx as int].view());
                result = Err(ChartError::YNotArray);
                break;
            }
            assert(yv[idx as int] == y@[idx as int].view());
            let merged = concat_arrays(&vals[idx], &y[idx]);
            vals.set(idx, merged);
            idx = idx + 1;
        }
        std::mem::swap(&mut vals, &mut self.values);
        proof {
            let (c2, r2) = add_entries_result(c0, x.view(), yv);
            assert(c0.values == v0);
            assert(grown == grown_values(c0.values, yv.len() as int));
            assert(array_view(self.values@) =~= c2.values);
            assert(self.view().x_points == c2.x_points);
            assert(self.view() == c2);
            assert(result == r2);
        }
        result
    }
}

impl ChartObject {
    /// Whether adding the points `x` and the series values `y` succeeds: the
    /// x points and `x` are arrays, `y` has an array for every series, and
    /// every series is an array.
    pub fn add_entries_succeeds(&self, x: &Json, y: &Vec<Json>) -> (r: bool)
        ensures
            r == add_entries_result(self.view(), x.view(), array_view(y@)).1 is Ok,
    {
        let ghost yv = array_view(y@);
        let ghost vals = grown_values(self.view().values, yv.len() as int);
        let ghost k = first_stop(vals, yv, 0);
        if !is_array(&self.x_points) || !is_array(x) {
            return false;
        }
        if self.values.len() > y.len() {
            proof {
                lemma_first_stop(vals, yv, 0);
                if k > yv.len() {
                    assert(vals[yv.len() as int] is Array);
                }
            }
            return false;
        }
        let mut i: usize = 0;
        while i < y.len()
            invariant
                i <= y@.len(),
                self.values@.len() <= y@.len(),
                yv == array_view(y@),
                vals == grown_values(self.view().values, yv.len() as int),
                k == first_stop(vals, yv, 0),
                vals.len() == yv.len(),
                forall|j: int| 0 <= j < i ==> (#[trigger] vals[j]) is Array && yv[j] is Array,
            decreases y.len() - i,
        {
            if i < self.values.len() {
                assert(vals[i as int] == self.values@[i as int].view());
                if !is_array(&self.values[i]) {
                    proof {
                        lemma_first_stop(vals, yv, 0);
                    }
                    return false;
                }
            } else {
                assert(vals[i as int] == JsonValue::Array(Seq::empty()));
            }
            assert(yv[i as int] == y@[i as int].view());
            if !is_array(&y[i]) {
                proof {
                    lemma_first_stop(vals, yv, 0);
                }
                return false;
            }
            i = i + 1;
        }
        proof {
            lemma_first_stop(vals, yv, 0);
            if k < vals.len() {
                assert(vals[k] is Array && yv[k] is Array);
            }
        }
        true
    }
}

impl ChartAxisXType {
    /// The name of the axis type.
    pub fn name(&self) -> (r: String)
        ensures
            r@ == x_kind_name(*self),
    {
        match self {
            ChartAxisXType::DateTime => owned("DateTime"),
            ChartAxisXType::Number => owned("Number"),
        }
    }

    /// The axis type named by a string.
    pub fn from_name(s: &str) -> (r: Option<ChartAxisXType>)
        ensures
            r == x_kind_named(s@),
    {
        if crate::text::str_equal(s, "DateTime") {
            Some(ChartAxisXType::DateTime)
        } else if crate::text::str_equal(s, "Number") {
            Some(ChartAxisXType::Number)
        } else {
            None
        }
    }

    /// The axis type read from JSON.
    pub fn from_json(v: &Json) -> (r: Option<ChartAxisXType>)
        ensures
            r == x_type_from_json(v.view()),
    {
        match v {
            Json::String(s) => ChartAxisXType::from_name(s.as_str()),
            Json::Object(o) => {
                proof {
                    lemma_view_object(*o);
                }
                if o.len() == 1 && o[0].1.is_null() {
                    ChartAxisXType::from_name(o[0].0.as_str())
                } else {
                    None
                }
            },
            _ => None,
        }
    }
}

/// The keys of a chart object are in the order a string-keyed map keeps.
pub proof fn lemma_chart_keys_sorted(c: ChartView)
    ensures
        keys_sorted(chart_to_json(c)->Object_0),
{
    reveal_strlit("title");
    reveal_strlit("values");
    reveal_strlit("x_points");
    reveal_strlit("x_type");
    let t = "title"@;
    let v = "values"@;
    let p = "x_points"@;
    let y = "x_type"@;
    assert(chars_lt(t, v));
    assert(chars_lt(v, p));
    assert(chars_lt(t, p));
    assert(chars_lt(v, y));
    assert(chars_lt(t, y));
    assert(p.drop_first().drop_first() =~= "points"@) by {
        reveal_strlit("points");
    }
    assert(y.drop_first().drop_first() =~= "type"@) by {
        reveal_strlit("type");
    }
    reveal_strlit("points");
    reveal_strlit("type");
    assert(chars_lt("points"@, "type"@));
    assert(chars_lt(p.drop_first(), y.drop_first()));
    assert(chars_lt(p, y));
}

impl Default for ChartObject {
    /// A chart titled `No title`, with a number axis, no points and no series.
    fn default() -> (r: ChartObject)
        ensures
            r.view() == default_chart("No title"@),
    {
        ChartObject::with_title(owned("No title"))
    }
}

impl ChartObject {
    /// A new chart with the given title, a number axis, no points and no series.
    pub fn with_title(title: String) -> (r: ChartObject)
        ensures
            r.view() == default_chart(title@),
    {
        let points: Vec<Json> = Vec::new();
        let values: Vec<Json> = Vec::new();
        proof {
            lemma_view_array(points);
            assert(array_view(points@) =~= Seq::empty());
            assert(array_view(values@) =~= Seq::empty());
        }
        ChartObject { title, x_type: ChartAxisXType::Number, x_points: Json::Array(points), values }
    }

    /// The chart as a JSON object.
    pub fn into_json(self) -> (r: Json)
        ensures
            r.view() == chart_to_json(self.view()),
    {
        let ghost c = self.view();
        let name = self.x_type.name();
        let values = Json::Array(self.values);
        proof {
            lemma_view_array(self.values);
        }
        let entries = vec![
            (owned("title"), Json::String(self.title)),
            (owned("values"), values),
            (owned("x_points"), self.x_points),
            (owned("x_type"), Json::String(name)),
        ];
        proof {
            lemma_view_object(entries);
            assert(entries_view(entries@) =~= chart_to_json(c)->Object_0);
        }
        Json::Object(entries)
    }

    /// The chart read from JSON, if it is one.
    pub fn from_json(v: &Json) -> (r: Option<ChartObject>)
        ensures
            match r {
                Some(c) => chart_from_json(v.view()) == Some(c.view()),
                None => chart_from_json(v.view()) is None,
            },
    {
        match v {
            Json::Object(o) => {
                proof {
                    lemma_view_object(*o);
                }
                let t = entries_lookup(o, "title");
                let xt = entries_lookup(o, "x_type");
                let xp = entries_lookup(o, "x_points");
                let vs = entries_lookup(o, "values");
                ChartObject::from_parts(t, xt, xp, vs)
            },
            Json::Array(a) => {
                proof {
                    lemma_view_array(*a);
                }
                if a.len() == 4 {
                    ChartObject::from_parts(Some(&a[0]), Some(&a[1]), Some(&a[2]), Some(&a[3]))
                } else {
                    None
                }
            },
            _ => None,
        }
    }

    fn from_parts(
        title: Option<&Json>,
        x_type: Option<&Json>,
        x_points: Option<&Json>,
        values: Option<&Json>,
    ) -> (r: Option<ChartObject>)
        ensures
            match r {
                Some(c) => chart_from_parts(
                    opt_view(title),
                    opt_view(x_type),
                    opt_view(x_points),
                    opt_view(values),
                ) == Some(c.view()),
                None => chart_from_parts(
                    opt_view(title),
                    opt_view(x_type),
                    opt_view(x_points),
                    opt_view(values),
                ) is None,
            },
    {
        match (title, x_type, x_points, values) {
            (Some(Json::String(t)), Some(xt), Some(xp), Some(Json::Array(vs))) => {
                match ChartAxisXType::from_json(xt) {
                    Some(ty) => {
                        proof {
                            lemma_view_array(*vs);
                        }
                        Some(
                            ChartObject {
                                title: crate::json::copy_string(t),
                                x_type: ty,
                                x_points: xp.deep_clone(),
                                values: copy_array(vs),
                            },
                        )
                    },
                    None => None,
                }
            },
            _ => None,
        }
    }
}

/// The view of an optional borrowed value.
pub open spec fn opt_view(o: Option<&Json>) -> Option<JsonValue> {
    match o {
        Some(v) => Some(v.view()),
        None => None,
    }
}

/// A copy of the elements of an array.
fn copy_array(v: &Vec<Json>) -> (r: Vec<Json>)
    ensures
        array_view(r@) == array_view(v@),
{
    let mut out: Vec<Json> = Vec::new();
    let mut i: usize = 0;
    while i < v.len()
        invariant
            i <= v.len(),
            out@.len() == i,
            forall|j: int| 0 <= j < i ==> (#[trigger] out@[j]).view() == v@[j].view(),
        decreases v.len() - i,
    {
        out.push(v[i].deep_clone());
        i = i + 1;
    }
    assert(array_view(out@) =~= array_view(v@));
    out
}

// ----- processing data -----------------------------------------------------

/// Entries after `entry(k).or_insert(v)`: `v` goes in where `k` is missing.
pub open spec fn entries_or_insert(s: Entries, k: Seq<char>, v: JsonValue) -> Entries {
    if entries_get(s, k) is Some {
        s
    } else {
        entries_insert(s, k, v)
    }
}

/// After an insertion the key holds the new value, whatever the order of the keys.
pub proof fn lemma_insert_then_get(s: Entries, k: Seq<char>, v: JsonValue)
    ensures
        entries_get(entries_insert(s, k, v), k) == Some(v),
{
    crate::json::lemma_insert_pos(s, k);
    let p = crate::json::insert_pos(s, k);
    let r = entries_insert(s, k, v);
    assert forall|i: int| 0 <= i < p implies r[i].0 != k by {
        assert(r[i] == s[i]);
        crate::text::lemma_chars_lt_irreflexive(k);
    }
    lemma_get_first(r, k, p);
}

/// The value under a key is the one of its first entry.
pub proof fn lemma_get_first(s: Entries, k: Seq<char>, p: int)
    requires
        0 <= p < s.len(),
        s[p].0 == k,
        forall|i: int| 0 <= i < p ==> s[i].0 != k,
    ensures
        entries_get(s, k) == Some(s[p].1),
    decreases p,
{
    if p > 0 {
        assert forall|i: int| 0 <= i < p - 1 implies s.drop_first()[i].0 != k by {
            assert(s.drop_first()[i] == s[i + 1]);
        }
        lemma_get_first(s.drop_first(), k, p - 1);
    }
}

/// Adding entries that succeed does not panic.
pub proof fn lemma_add_entries_ok_no_panic(c: ChartView, x: JsonValue, y: Seq<JsonValue>)
    requires
        add_entries_result(c, x, y).1 is Ok,
    ensures
        !add_entries_panics(c, x, y),
{
}

/// A chart written as JSON reads back as the same chart.
pub proof fn lemma_chart_json_roundtrip(c: ChartView)
    ensures
        chart_from_json(chart_to_json(c)) == Some(c),
{
    reveal_strlit("title");
    reveal_strlit("values");
    reveal_strlit("x_points");
    reveal_strlit("x_type");
    reveal_strlit("DateTime");
    reveal_strlit("Number");
    let o = chart_to_json(c)->Object_0;
    assert("title"@[0] != "values"@[0] && "title"@[0] != "x_points"@[0] && "title"@[0] != "x_type"@[0]);
    assert("values"@[0] != "x_points"@[0] && "values"@[0] != "x_type"@[0]);
    assert("x_points"@[2] != "x_type"@[2]);
    assert("DateTime"@[0] != "Number"@[0]);
    assert(o.drop_first()[0].0 == "values"@);
    assert(o.drop_first().drop_first()[0].0 == "x_points"@);
    assert(o.drop_first().drop_first().drop_first()[0].0 == "x_type"@);
    assert(entries_get(o, "title"@) == Some(JsonValue::Str(c.title)));
    assert(entries_get(o.drop_first(), "values"@) == Some(JsonValue::Array(c.values)));
    assert(entries_get(o, "values"@) == Some(JsonValue::Array(c.values)));
    assert(entries_get(o.drop_first().drop_first(), "x_points"@) == Some(c.x_points));
    assert(entries_get(o.drop_first(), "x_points"@) == Some(c.x_points));
    assert(entries_get(o, "x_points"@) == Some(c.x_points));
    assert(entries_get(o.drop_first().drop_first().drop_first(), "x_type"@) == Some(
        JsonValue::Str(x_kind_name(c.x_type)),
    ));
    assert(entries_get(o.drop_first().drop_first(), "x_type"@) == Some(JsonValue::Str(x_kind_name(c.x_type))));
    assert(entries_get(o.drop_first(), "x_type"@) == Some(JsonValue::Str(x_kind_name(c.x_type))));
    assert(entries_get(o, "x_type"@) == Some(JsonValue::Str(x_kind_name(c.x_type))));
}

/// Adding entries that succeed: the x points grow by `x`, the chart ends up
/// with exactly as many series as `y` has arrays (it had no more before), an
/// old series `i` is followed by `y[i]`, a new series is `y[i]`, and the title
/// and axis stay.
pub proof fn lemma_add_entries_series(c: ChartView, x: JsonValue, y: Seq<JsonValue>)
    requires
        add_entries_result(c, x, y).1 is Ok,
    ensures
        c.values.len() <= y.len(),
        forall|i: int| 0 <= i < y.len() ==> (#[trigger] y[i]) is Array,
        add_entries_result(c, x, y).0.title == c.title,
        add_entries_result(c, x, y).0.x_type == c.x_type,
        add_entries_result(c, x, y).0.x_points == JsonValue::Array(c.x_points->Array_0 + x->Array_0),
        add_entries_result(c, x, y).0.values.len() == y.len(),
        forall|i: int|
            0 <= i < c.values.len() ==> c.values[i] is Array && #[trigger] add_entries_result(
                c,
                x,
                y,
            ).0.values[i] == JsonValue::Array(c.values[i]->Array_0 + y[i]->Array_0),
        forall|i: int| c.values.len() <= i < y.len() ==> #[trigger] add_entries_result(c, x, y).0.values[i] == y[i],
{
    let vals = grown_values(c.values, y.len() as int);
    lemma_first_stop(vals, y, 0);
    let k = first_stop(vals, y, 0);
    if k < vals.len() {
        assert(vals[k] is Array || !(vals[k] is Array));
    }
    assert(k == vals.len());
    if c.values.len() > y.len() {
        assert(vals[y.len() as int] is Array);
    }
    assert forall|i: int| 0 <= i < y.len() implies (#[trigger] y[i]) is Array by {
        assert(vals[i] is Array);
    }
    assert forall|i: int| 0 <= i < c.values.len() implies c.values[i] is Array by {
        assert(vals[i] == c.values[i]);
    }
    assert forall|i: int| c.values.len() <= i < y.len() implies #[trigger] add_entries_result(c, x, y).0.values[i]
        == y[i] by {
        assert(vals[i] == JsonValue::Array(Seq::empty()));
        assert(Seq::<JsonValue>::empty() + y[i]->Array_0 =~= y[i]->Array_0);
    }
}

/// A block of rows that a chart takes: the first row is an object of two
/// entries, one of them under `timestamp`.
pub open spec fn timestamp_rows(arr: Seq<JsonValue>) -> bool {
    &&& arr.len() > 0
    &&& arr[0] is Object
    &&& arr[0]->Object_0.len() == 2
    &&& entries_get(arr[0]->Object_0, "timestamp"@) is Some
}

/// Every row holds a non-negative integer under `timestamp`.
pub open spec fn rows_timestamped(arr: Seq<JsonValue>) -> bool {
    forall|i: int|
        0 <= i < arr.len() ==> ((#[trigger] arr[i]).get("timestamp"@) matches Some(t) && t.as_u64() is Some)
}

/// The timestamps of the rows, as x points.
pub open spec fn row_timestamps(arr: Seq<JsonValue>) -> Seq<JsonValue> {
    Seq::new(
        arr.len(),
        |i: int| JsonValue::Number(JsonNumber::PosInt(arr[i].get("timestamp"@).unwrap().as_u64().unwrap())),
    )
}

/// An entry of a row that is a y value: a number under a key other than `timestamp`.
pub open spec fn is_y_entry(e: (Seq<char>, JsonValue)) -> bool {
    e.0 != "timestamp"@ && e.1 is Number
}

/// `is_y_entry` as a predicate to filter with.
pub open spec fn y_entry_pred() -> spec_fn((Seq<char>, JsonValue)) -> bool {
    |e: (Seq<char>, JsonValue)| is_y_entry(e)
}

/// The value of an entry.
pub open spec fn entry_value() -> spec_fn((Seq<char>, JsonValue)) -> JsonValue {
    |e: (Seq<char>, JsonValue)| e.1
}

/// The y values of a row, in key order.
pub open spec fn row_y_values(row: Entries) -> Seq<JsonValue> {
    row.filter(y_entry_pred()).map_values(entry_value())
}

/// The state after `entry(slug).or_insert(new chart)` for a title.
pub open spec fn state_with_chart(title: Seq<char>, cur: Entries) -> Entries {
    entries_or_insert(cur, slug_of(title), chart_to_json(default_chart(title)))
}

/// The chart kept for a title once the state has one.
pub open spec fn chart_for(title: Seq<char>, cur: Entries) -> Option<ChartView> {
    chart_from_json(entries_get(state_with_chart(title, cur), slug_of(title)).unwrap())
}

/// The chart after taking a block of timestamped rows: a date-time axis, the
/// timestamps as new x points and the first row's y values appended to the
/// first series.
pub open spec fn chart_with_rows(chart: ChartView, arr: Seq<JsonValue>) -> (ChartView, Result<(), ChartError>) {
    add_entries_result(
        ChartView { x_type: ChartAxisXType::DateTime, ..chart },
        JsonValue::Array(row_timestamps(arr)),
        seq![JsonValue::Array(row_y_values(arr[0]->Object_0))],
    )
}

/// The data is a non-empty array whose first element is a number.
pub open spec fn number_rows(d: JsonValue) -> bool {
    d matches JsonValue::Array(arr) && arr.len() > 0 && arr[0] is Number
}

/// A chart can take the data without failing: a titled block has a string
/// title, the state holds a chart (or nothing) under its slug, the data is not
/// an array of numbers, and timestamped rows all hold a timestamp and fit the
/// chart (its x points an array, at most one series, an array).
pub open spec fn chart_processable(data: JsonValue, cur: Entries) -> bool {
    match title_block(data) {
        None => true,
        Some((t, d)) => match t {
            JsonValue::Str(title) => {
                &&& chart_for(title, cur) is Some
                &&& !number_rows(d)
                &&& (d matches JsonValue::Array(arr) && timestamp_rows(arr)) ==> (rows_timestamped(d->Array_0)
                    && chart_with_rows(chart_for(title, cur).unwrap(), d->Array_0).1 is Ok)
            },
            _ => false,
        },
    }
}

/// The state after a chart takes the data: for a titled block, a new chart
/// under the slug of the title where there was none, and then, for
/// timestamped rows, the chart with the rows added.
pub open spec fn chart_processed(data: JsonValue, cur: Entries) -> Entries {
    match title_block(data) {
        Some((JsonValue::Str(title), d)) => {
            let cur1 = state_with_chart(title, cur);
            if d matches JsonValue::Array(arr) && timestamp_rows(arr) {
                entries_insert(
                    cur1,
                    slug_of(title),
                    chart_to_json(chart_with_rows(chart_for(title, cur).unwrap(), d->Array_0).0),
                )
            } else {
                cur1
            }
        },
        _ => cur,
    }
}

/// The timestamps of the rows, as JSON numbers.
fn timestamps_of(arr: &Vec<Json>) -> (r: Vec<Json>)
    requires
        rows_timestamped(array_view(arr@)),
    ensures
        array_view(r@) == row_timestamps(array_view(arr@)),
{
    let ghost a = array_view(arr@);
    let mut out: Vec<Json> = Vec::new();
    let mut i: usize = 0;
    while i < arr.len()
        invariant
            a == array_view(arr@),
            rows_timestamped(a),
            i <= arr.len(),
            out@.len() == i,
            forall|j: int| 0 <= j < i ==> (#[trigger] out@[j]).view() == row_timestamps(a)[j],
        decreases arr.len() - i,
    {
        assert(a[i as int] == arr@[i as int].view());
        let t = arr[i].get("timestamp").unwrap().as_u64().unwrap();
        out.push(Json::Number(JsonNumber::PosInt(t)));
        i = i + 1;
    }
    assert(array_view(out@) =~= row_timestamps(a));
    out
}

/// The y values of a row: its numbers under keys other than `timestamp`, in order.
fn y_values_of(row: &Vec<(String, Json)>) -> (r: Vec<Json>)
    ensures
        array_view(r@) == row_y_values(entries_view(row@)),
{
    let ghost e = entries_view(row@);
    let ghost pred = y_entry_pred();
    let mut out: Vec<Json> = Vec::new();
    let mut i: usize = 0;
    while i < row.len()
        invariant
            e == entries_view(row@),
            i <= row.len(),
            pred == y_entry_pred(),
            array_view(out@) == e.take(i as int).filter(pred).map_values(entry_value()),
        decreases row.len() - i,
    {
        let ghost before = array_view(out@);
        let ghost f = e.take(i as int).filter(pred);
        assert(e.take(i + 1) =~= e.take(i as int).push(e[i as int]));
        proof {
            e.take(i as int).lemma_filter_push(e[i as int], pred);
        }
        assert(e[i as int] == (row@[i as int].0@, row@[i as int].1.view()));
        let is_ts = crate::text::str_equal(row[i].0.as_str(), "timestamp");
        let is_num = row[i].1.is_number();
        assert(is_y_entry(e[i as int]) == (!is_ts && is_num));
        if !is_ts && is_num {
            out.push(row[i].1.deep_clone());
            assert(pred(e[i as int]));
            assert(e.take(i + 1).filter(pred) == f.push(e[i as int]));
            assert(f.push(e[i as int]).map_values(entry_value()) =~= f.map_values(entry_value()).push(
                e[i as int].1,
            ));
            assert(array_view(out@) =~= before.push(e[i as int].1));
        } else {
            assert(!pred(e[i as int]));
            assert(e.take(i + 1).filter(pred) == f);
            assert(array_view(out@) =~= before);
        }
        i = i + 1;
    }
    assert(e.take(row.len() as int) =~= e);
    out
}

/// A kind of data the state holds, and how it takes new data.
pub trait DataType: Sized {
    /// The data can be taken without failing.
    spec fn processable(&self, data: JsonValue, state: Entries) -> bool;

    /// The state after taking the data.
    spec fn processed(&self, data: JsonValue, state: Entries) -> Entries;

    /// The name of the data type.
    spec fn kind_name(&self) -> Seq<char>;

    fn new() -> Self;

    fn name(&self) -> (r: String)
        ensures
            r@ == self.kind_name(),
    ;

    fn process_data(&self, data: &Json, current_object: &mut Vec<(String, Json)>)
        requires
            self.processable(data.view(), entries_view(old(current_object)@)),
        ensures
            entries_view(final(current_object)@) == self.processed(
                data.view(),
                entries_view(old(current_object)@),
            ),
    ;
}

/// The chart data type.
pub struct Chart {}

impl DataType for Chart {
    open spec fn processable(&self, data: JsonValue, state: Entries) -> bool {
        chart_processable(data, state)
    }

    open spec fn processed(&self, data: JsonValue, state: Entries) -> Entries {
        chart_processed(data, state)
    }

    open spec fn kind_name(&self) -> Seq<char> {
        "Chart"@
    }

    fn new() -> Self {
        Chart {}
    }

    fn name(&self) -> (r: String) {
        owned("Chart")
    }

    fn process_data(&self, data: &Json, current_object: &mut Vec<(String, Json)>) {
        let ghost cur0 = entries_view(current_object@);
        match filter_title_objects(data) {
            None => {},
            Some((title, value)) => {
                let slug = title.to_slug();
                if entries_lookup(current_object, slug.as_str()).is_none() {
                    let fresh = ChartObject::with_title(owned(title)).into_json();
                    entries_put(current_object, crate::json::copy_string(&slug), fresh);
                }
                assert(entries_view(current_object@) == state_with_chart(title@, cur0));
                proof {
                    if entries_get(cur0, slug@) is None {
                        lemma_insert_then_get(cur0, slug@, chart_to_json(default_chart(title@)));
                    }
                }
                let mut chart = ChartObject::from_json(entries_lookup(current_object, slug.as_str()).unwrap()).unwrap();
                assert(chart.view() == chart_for(title@, cur0).unwrap());
                let ghost chart0 = chart.view();
                if let Json::Array(arr) = value {
                    proof {
                        lemma_view_array(*arr);
                    }
                    if arr.len() > 0 {
                        let first_obj = &arr[0];
                        if first_obj.is_number() {
                            let mut xs: Vec<Json> = Vec::new();
                            let mut idx: usize = 0;
                            while idx < arr.len()
                                invariant
                                    idx <= arr.len(),
                                decreases arr.len() - idx,
                            {
                                xs.push(Json::Number(JsonNumber::PosInt(idx as u64)));
                                idx = idx + 1;
                            }
                            chart.add_entries(Json::Array(xs), copy_array(arr)).unwrap();
                            entries_put(current_object, slug, chart.into_json());
                        } else if let Json::Object(obj) = first_obj {
                            proof {
                                lemma_view_object(*obj);
                                assert(array_view(arr@)[0] == first_obj.view());
                            }
                            if obj.len() == 2 && entries_lookup(obj, "timestamp").is_some() {
                                proof {
                                    assert(timestamp_rows(array_view(arr@)));
                                }
                                chart.x_type = ChartAxisXType::DateTime;
                                let xs = timestamps_of(arr);
                                let ys = y_values_of(obj);
                                proof {
                                    lemma_view_array(xs);
                                    lemma_view_array(ys);
                                }
                                let y = vec![Json::Array(ys)];
                                proof {
                                    assert(array_view(y@) =~= seq![JsonValue::Array(row_y_values(entries_view(obj@)))]);
                                    lemma_add_entries_ok_no_panic(
                                        chart.view(),
                                        Json::Array(xs).view(),
                                        array_view(y@),
                                    );
                                }
                                chart.add_entries(Json::Array(xs), y).unwrap();
                                assert(chart.view() == chart_with_rows(chart0, array_view(arr@)).0);
                                entries_put(current_object, slug, chart.into_json());
                            } else {
                                assert(!timestamp_rows(array_view(arr@)));
                            }
                        } else {
                            assert(array_view(arr@)[0] == first_obj.view());
                            assert(!timestamp_rows(array_view(arr@)));
                        }
                    }
                }
            },
        }
    }
}

/// Whether every row holds a non-negative integer under `timestamp`.
fn rows_have_timestamps(arr: &Vec<Json>) -> (r: bool)
    ensures
        r == rows_timestamped(array_view(arr@)),
{
    let ghost a = array_view(arr@);
    let mut i: usize = 0;
    while i < arr.len()
        invariant
            a == array_view(arr@),
            i <= arr@.len(),
            forall|j: int| 0 <= j < i ==> ((#[trigger] a[j]).get("timestamp"@) matches Some(ts) && ts.as_u64() is Some),
        decreases arr.len() - i,
    {
        assert(a[i as int] == arr@[i as int].view());
        match arr[i].get("timestamp") {
            Some(ts) => {
                if ts.as_u64().is_none() {
                    return false;
                }
            },
            None => {
                return false;
            },
        }
        i = i + 1;
    }
    true
}

/// Whether a chart takes the data without failing.
pub fn chart_can_process(data: &Json, cur: &Vec<(String, Json)>) -> (r: bool)
    ensures
        r == chart_processable(data.view(), entries_view(cur@)),
{
    let ghost cur0 = entries_view(cur@);
    let t = match data.get("title") {
        Some(t) => t,
        None => {
            return true;
        },
    };
    let d = match data.get("data") {
        Some(d) => d,
        None => {
            return true;
        },
    };
    assert(title_block(data.view()) == Some((t.view(), d.view())));
    let title = match t.as_str() {
        Some(title) => title,
        None => {
            return false;
        },
    };
    let slug = title.to_slug();
    assert(slug@ == slug_of(title@));
    let chart = match entries_lookup(cur, slug.as_str()) {
        Some(v) => {
            assert(state_with_chart(title@, cur0) == cur0);
            ChartObject::from_json(v)
        },
        None => {
            let fresh = ChartObject::with_title(owned(title)).into_json();
            proof {
                lemma_insert_then_get(cur0, slug@, chart_to_json(default_chart(title@)));
            }
            ChartObject::from_json(&fresh)
        },
    };
    let mut chart = match chart {
        Some(c) => c,
        None => {
            return false;
        },
    };
    assert(chart_for(title@, cur0) == Some(chart.view()));
    let arr = match d {
        Json::Array(arr) => arr,
        _ => {
            return true;
        },
    };
    proof {
        lemma_view_array(*arr);
    }
    if arr.len() == 0 {
        return true;
    }
    let first_obj = &arr[0];
    assert(array_view(arr@)[0] == first_obj.view());
    if first_obj.is_number() {
        return false;
    }
    let obj = match first_obj {
        Json::Object(obj) => obj,
        _ => {
            return true;
        },
    };
    proof {
        lemma_view_object(*obj);
    }
    if !(obj.len() == 2 && entries_lookup(obj, "timestamp").is_some()) {
        return true;
    }
    assert(timestamp_rows(array_view(arr@)));
    if !rows_have_timestamps(arr) {
        return false;
    }
    chart.x_type = ChartAxisXType::DateTime;
    let xs = timestamps_of(arr);
    let ys = y_values_of(obj);
    proof {
        lemma_view_array(xs);
        lemma_view_array(ys);
    }
    let y = vec![Json::Array(ys)];
    assert(array_view(y@) =~= seq![JsonValue::Array(row_y_values(entries_view(obj@)))]);
    chart.add_entries_succeeds(&Json::Array(xs), &y)
}

// ----- laws ------------------------------------------------------------------

/// The parts of a chart are well-formed JSON.
pub open spec fn chart_wf(c: ChartView) -> bool {
    c.x_points.wf() && forall|i: int| 0 <= i < c.values.len() ==> (#[trigger] c.values[i]).wf()
}

/// Well-formed entries: keys in order, values well-formed.
pub open spec fn entries_wf(s: Entries) -> bool {
    keys_sorted(s) && forall|i: int| 0 <= i < s.len() ==> (#[trigger] s[i]).1.wf()
}

/// A chart with well-formed parts is written as a well-formed object.
pub proof fn lemma_chart_json_wf(c: ChartView)
    requires
        chart_wf(c),
    ensures
        chart_to_json(c).wf(),
{
    lemma_chart_keys_sorted(c);
    let o = chart_to_json(c)->Object_0;
    assert forall|i: int| 0 <= i < o.len() implies (#[trigger] o[i]).1.wf() by {
        if i == 1 {
            assert(o[1].1 == JsonValue::Array(c.values));
        }
    }
}

/// A chart read from a well-formed value has well-formed parts.
pub proof fn lemma_chart_from_json_wf(v: JsonValue)
    requires
        v.wf(),
        chart_from_json(v) is Some,
    ensures
        chart_wf(chart_from_json(v).unwrap()),
{
    match v {
        JsonValue::Object(o) => {
            crate::json::lemma_entries_get_wf(o, "x_points"@);
            crate::json::lemma_entries_get_wf(o, "values"@);
        },
        JsonValue::Array(a) => {
            assert(a[2].wf());
            assert(a[3].wf());
        },
        _ => {},
    }
}

proof fn lemma_filter_values_wf(s: Entries, p: spec_fn((Seq<char>, JsonValue)) -> bool)
    requires
        forall|i: int| 0 <= i < s.len() ==> (#[trigger] s[i]).1.wf(),
    ensures
        forall|i: int| 0 <= i < s.filter(p).len() ==> (#[trigger] s.filter(p)[i]).1.wf(),
    decreases s.len(),
{
    reveal(Seq::filter);
    if s.len() > 0 {
        let t = s.drop_last();
        assert forall|i: int| 0 <= i < t.len() implies (#[trigger] t[i]).1.wf() by {
            assert(t[i] == s[i]);
        }
        lemma_filter_values_wf(t, p);
        let f = t.filter(p);
        if p(s.last()) {
            assert forall|i: int| 0 <= i < s.filter(p).len() implies (#[trigger] s.filter(p)[i]).1.wf() by {
                if i < f.len() {
                    assert(s.filter(p)[i] == f[i]);
                }
            }
        }
    }
}

/// Adding well-formed entries to a chart with well-formed parts keeps its
/// parts well-formed.
pub proof fn lemma_add_entries_wf(c: ChartView, x: JsonValue, y: Seq<JsonValue>)
    requires
        chart_wf(c),
        x.wf(),
        forall|i: int| 0 <= i < y.len() ==> (#[trigger] y[i]).wf(),
    ensures
        chart_wf(add_entries_result(c, x, y).0),
{
    if c.x_points is Array && x is Array {
        let r = add_entries_result(c, x, y).0;
        let xp = r.x_points->Array_0;
        assert forall|i: int| 0 <= i < xp.len() implies (#[trigger] xp[i]).wf() by {
            if i < c.x_points->Array_0.len() {
                assert(xp[i] == c.x_points->Array_0[i]);
            } else {
                assert(xp[i] == x->Array_0[i - c.x_points->Array_0.len()]);
            }
        }
        let vals = grown_values(c.values, y.len() as int);
        assert forall|i: int| 0 <= i < vals.len() implies (#[trigger] vals[i]).wf() by {
            if i >= c.values.len() {
                assert(vals[i] == JsonValue::Array(Seq::empty()));
            }
        }
        lemma_first_stop(vals, y, 0);
        assert forall|i: int| 0 <= i < r.values.len() implies (#[trigger] r.values[i]).wf() by {
            if i < first_stop(vals, y, 0) {
                let a = vals[i]->Array_0;
                let b = y[i]->Array_0;
                assert forall|j: int| 0 <= j < (a + b).len() implies (#[trigger] (a + b)[j]).wf() by {
                    if j < a.len() {
                        assert((a + b)[j] == a[j]);
                    } else {
                        assert((a + b)[j] == b[j - a.len()]);
                    }
                }
            }
        }
    }
}

/// The state a chart leaves after taking well-formed data is well-formed
/// again: keys in order, every value well-formed JSON.
pub proof fn lemma_chart_processed_wf(data: JsonValue, cur: Entries)
    requires
        data.wf(),
        entries_wf(cur),
        chart_processable(data, cur),
    ensures
        entries_wf(chart_processed(data, cur)),
{
    if let Some((JsonValue::Str(title), d)) = title_block(data) {
        let o = data->Object_0;
        crate::json::lemma_entries_get_wf(o, "data"@);
        let slug = slug_of(title);
        let fresh = chart_to_json(default_chart(title));
        lemma_chart_json_wf(default_chart(title));
        let cur1 = state_with_chart(title, cur);
        if entries_get(cur, slug) is None {
            lemma_entries_insert_sorted(cur, slug, fresh);
            crate::json::lemma_entries_insert_wf(cur, slug, fresh);
            lemma_insert_then_get(cur, slug, fresh);
        }
        assert(entries_wf(cur1));
        if d matches JsonValue::Array(arr) && timestamp_rows(arr) {
            let arr = d->Array_0;
            crate::json::lemma_entries_get_wf(cur1, slug);
            lemma_chart_from_json_wf(entries_get(cur1, slug).unwrap());
            let chart = chart_for(title, cur).unwrap();
            let c2 = ChartView { x_type: ChartAxisXType::DateTime, ..chart };
            let xs = JsonValue::Array(row_timestamps(arr));
            assert forall|i: int| 0 <= i < row_timestamps(arr).len() implies (#[trigger] row_timestamps(arr)[i]).wf() by {}
            assert(xs.wf());
            assert(arr[0].wf());
            let row = arr[0]->Object_0;
            lemma_filter_values_wf(row, y_entry_pred());
            let yv = row_y_values(row);
            assert forall|i: int| 0 <= i < yv.len() implies (#[trigger] yv[i]).wf() by {
                assert(yv[i] == row.filter(y_entry_pred())[i].1);
            }
            let ys = seq![JsonValue::Array(yv)];
            assert forall|i: int| 0 <= i < ys.len() implies (#[trigger] ys[i]).wf() by {}
            lemma_add_entries_wf(c2, xs, ys);
            let c3 = chart_with_rows(chart, arr).0;
            lemma_chart_json_wf(c3);
            lemma_entries_insert_sorted(cur1, slug, chart_to_json(c3));
            crate::json::lemma_entries_insert_wf(cur1, slug, chart_to_json(c3));
        }
    }
}


/// A chart already kept under the slug of a title takes a further block of
/// timestamped rows for that title, as long as its x points are an array and
/// it has at most one series, an array: entries for a chart that the state
/// already holds are taken.
pub proof fn lemma_existing_chart_takes_rows(
    data: JsonValue,
    cur: Entries,
    title: Seq<char>,
    arr: Seq<JsonValue>,
    v: JsonValue,
    c: ChartView,
)
    requires
        title_block(data) == Some((JsonValue::Str(title), JsonValue::Array(arr))),
        timestamp_rows(arr),
        rows_timestamped(arr),
        entries_get(cur, slug_of(title)) == Some(v),
        chart_from_json(v) == Some(c),
        c.x_points is Array,
        c.values.len() <= 1,
        forall|i: int| 0 <= i < c.values.len() ==> (#[trigger] c.values[i]) is Array,
    ensures
        chart_processable(data, cur),
{
    assert(state_with_chart(title, cur) == cur);
    assert(chart_for(title, cur) == Some(c));
    lemma_rows_fit(c, arr);
}

/// After the state takes a block of timestamped rows for a title, it takes
/// the next such block for the same title: a chart keeps taking new readings.
pub proof fn lemma_next_rows_taken(
    b1: JsonValue,
    b2: JsonValue,
    cur: Entries,
    title: Seq<char>,
    arr1: Seq<JsonValue>,
    arr2: Seq<JsonValue>,
)
    requires
        chart_processable(b1, cur),
        title_block(b1) == Some((JsonValue::Str(title), JsonValue::Array(arr1))),
        timestamp_rows(arr1),
        title_block(b2) == Some((JsonValue::Str(title), JsonValue::Array(arr2))),
        timestamp_rows(arr2),
        rows_timestamped(arr2),
    ensures
        chart_processable(b2, chart_processed(b1, cur)),
{
    let slug = slug_of(title);
    let c1 = chart_for(title, cur).unwrap();
    let cd = ChartView { x_type: ChartAxisXType::DateTime, ..c1 };
    let x = JsonValue::Array(row_timestamps(arr1));
    let y = seq![JsonValue::Array(row_y_values(arr1[0]->Object_0))];
    lemma_add_entries_series(cd, x, y);
    let c2 = chart_with_rows(c1, arr1).0;
    assert(c2 == add_entries_result(cd, x, y).0);
    let cur1 = state_with_chart(title, cur);
    let after = chart_processed(b1, cur);
    assert(after == entries_insert(cur1, slug, chart_to_json(c2)));
    lemma_insert_then_get(cur1, slug, chart_to_json(c2));
    lemma_chart_json_roundtrip(c2);
    assert(c2.values.len() == 1);
    if cd.values.len() == 0 {
        assert(c2.values[0] == y[0]);
    }
    assert(c2.values[0] is Array);
    lemma_existing_chart_takes_rows(b2, after, title, arr2, chart_to_json(c2), c2);
}


/// A chart whose x points are an array and that has at most one series, an
/// array, takes a block of timestamped rows without an error.
proof fn lemma_rows_fit(c: ChartView, arr: Seq<JsonValue>)
    requires
        c.x_points is Array,
        c.values.len() <= 1,
        forall|i: int| 0 <= i < c.values.len() ==> (#[trigger] c.values[i]) is Array,
    ensures
        chart_with_rows(c, arr).1 is Ok,
{
    let c1 = ChartView { x_type: ChartAxisXType::DateTime, ..c };
    let y = seq![JsonValue::Array(row_y_values(arr[0]->Object_0))];
    let vals = grown_values(c1.values, y.len() as int);
    if c.values.len() == 0 {
        assert(vals[0] == JsonValue::Array(Seq::empty()));
    } else {
        assert(vals == c.values);
    }
    assert(vals.len() == 1);
    lemma_first_stop(vals, y, 0);
    assert(vals[0] is Array && y[0] is Array);
    assert(first_stop(vals, y, 0) == 1);
}

/// A block of one row holding a number under a key other than `timestamp`
/// (before or after it) and a timestamp, for a title the state keeps no chart
/// for, is taken and makes a date-time chart with that timestamp as its one x
/// point and that number as its one series.
pub proof fn lemma_single_row_chart(
    data: JsonValue,
    cur: Entries,
    title: Seq<char>,
    row: Entries,
    k: Seq<char>,
    n: JsonNumber,
    ts: u64,
)
    requires
        title_block(data) == Some((JsonValue::Str(title), JsonValue::Array(seq![JsonValue::Object(row)]))),
        k != "timestamp"@,
        row == seq![(k, JsonValue::Number(n)), ("timestamp"@, JsonValue::Number(JsonNumber::PosInt(ts)))]
            || row == seq![("timestamp"@, JsonValue::Number(JsonNumber::PosInt(ts))), (k, JsonValue::Number(n))],
        entries_get(cur, slug_of(title)) is None,
    ensures
        chart_processable(data, cur),
        entries_get(chart_processed(data, cur), slug_of(title)) == Some(
            chart_to_json(
                ChartView {
                    title,
                    x_type: ChartAxisXType::DateTime,
                    x_points: JsonValue::Array(seq![JsonValue::Number(JsonNumber::PosInt(ts))]),
                    values: seq![JsonValue::Array(seq![JsonValue::Number(n)])],
                },
            ),
        ),
{
    let slug = slug_of(title);
    let arr = seq![JsonValue::Object(row)];
    let t = JsonValue::Number(JsonNumber::PosInt(ts));
    let e = (k, JsonValue::Number(n));
    let te = ("timestamp"@, t);
    // the row holds its timestamp
    if row == seq![e, te] {
        assert(row.drop_first() =~= seq![te]);
        assert(row[0].0 != "timestamp"@);
        assert(seq![te][0].0 == "timestamp"@);
        assert(entries_get(row.drop_first(), "timestamp"@) == Some(t));
    } else {
        assert(row[0] == te);
    }
    assert(entries_get(row, "timestamp"@) == Some(t));
    assert(timestamp_rows(arr));
    assert(arr[0].get("timestamp"@) == Some(t));
    assert(rows_timestamped(arr));
    assert(row_timestamps(arr) =~= seq![t]);
    // its y values are its number
    let pred = y_entry_pred();
    assert(pred(e) && !pred(te));
    assert(Seq::<(Seq<char>, JsonValue)>::empty().filter(pred) =~= Seq::empty()) by {
        reveal(Seq::filter);
    }
    Seq::<(Seq<char>, JsonValue)>::empty().lemma_filter_push(e, pred);
    Seq::<(Seq<char>, JsonValue)>::empty().lemma_filter_push(te, pred);
    seq![e].lemma_filter_push(te, pred);
    seq![te].lemma_filter_push(e, pred);
    assert(seq![e] =~= Seq::<(Seq<char>, JsonValue)>::empty().push(e));
    assert(seq![te] =~= Seq::<(Seq<char>, JsonValue)>::empty().push(te));
    assert(seq![e, te] =~= seq![e].push(te));
    assert(seq![te, e] =~= seq![te].push(e));
    assert(row.filter(pred) =~= seq![e]);
    assert(row_y_values(row) =~= seq![JsonValue::Number(n)]);
    // a new chart is made, and takes the row
    let fresh = chart_to_json(default_chart(title));
    lemma_insert_then_get(cur, slug, fresh);
    lemma_chart_json_roundtrip(default_chart(title));
    assert(chart_for(title, cur) == Some(default_chart(title)));
    lemma_rows_fit(default_chart(title), arr);
    assert(chart_processable(data, cur));
    let cd = ChartView { x_type: ChartAxisXType::DateTime, ..default_chart(title) };
    let x = JsonValue::Array(row_timestamps(arr));
    let y = seq![JsonValue::Array(row_y_values(arr[0]->Object_0))];
    lemma_add_entries_series(cd, x, y);
    let c2 = chart_with_rows(default_chart(title), arr).0;
    assert(c2 == add_entries_result(cd, x, y).0);
    let want = ChartView {
        title,
        x_type: ChartAxisXType::DateTime,
        x_points: JsonValue::Array(seq![t]),
        values: seq![JsonValue::Array(seq![JsonValue::Number(n)])],
    };
    assert(c2.x_points->Array_0 =~= seq![t]);
    assert(c2.values[0] == y[0]);
    assert(c2.values =~= want.values);
    assert(c2 == want);
    lemma_insert_then_get(state_with_chart(title, cur), slug, chart_to_json(c2));
}


/// The value is a number that the row holds under a key other than `timestamp`.
pub open spec fn number_beside_timestamp(row: Entries, v: JsonValue) -> bool {
    exists|i: int| 0 <= i < row.len() && (#[trigger] row[i]).0 != "timestamp"@ && row[i].1 is Number && row[i].1 == v
}

/// The y values of a row are exactly its numbers under keys other than
/// `timestamp`, wherever those keys sort: each such number is among them,
/// and each of them is the number of such an entry.
pub proof fn lemma_row_y_values(row: Entries)
    ensures
        forall|i: int|
            0 <= i < row.len() && row[i].0 != "timestamp"@ && row[i].1 is Number ==> row_y_values(
                row,
            ).contains(#[trigger] row[i].1),
        forall|j: int|
            0 <= j < row_y_values(row).len() ==> number_beside_timestamp(row, #[trigger] row_y_values(row)[j]),
{
    let pred = y_entry_pred();
    let f = row.filter(pred);
    assert forall|i: int|
        0 <= i < row.len() && row[i].0 != "timestamp"@ && row[i].1 is Number implies row_y_values(row).contains(
        #[trigger] row[i].1,
    ) by {
        assert(pred(row[i]));
        row.lemma_filter_contains(pred, i);
        let j = choose|j: int| 0 <= j < f.len() && f[j] == row[i];
        assert(row_y_values(row)[j] == row[i].1);
    }
    assert forall|j: int| 0 <= j < row_y_values(row).len() implies number_beside_timestamp(
        row,
        #[trigger] row_y_values(row)[j],
    ) by {
        row.lemma_filter_pred(pred, j);
        lemma_filter_member(row, pred, j);
        let i = choose|i: int| 0 <= i < row.len() && row[i] == f[j];
        assert(is_y_entry(f[j]));
        assert(row_y_values(row)[j] == f[j].1);
        assert(row[i].0 != "timestamp"@ && row[i].1 is Number && row_y_values(row)[j] == row[i].1);
    }
}

/// Every element of a filtered sequence is an element of the sequence.
proof fn lemma_filter_member<A>(s: Seq<A>, pred: spec_fn(A) -> bool, j: int)
    requires
        0 <= j < s.filter(pred).len(),
    ensures
        exists|i: int| 0 <= i < s.len() && s[i] == s.filter(pred)[j],
    decreases s.len(),
{
    reveal(Seq::filter);
    let sub = s.drop_last().filter(pred);
    if j < sub.len() {
        lemma_filter_member(s.drop_last(), pred, j);
        let i = choose|i: int| 0 <= i < s.drop_last().len() && s.drop_last()[i] == sub[j];
        assert(s[i] == s.drop_last()[i]);
    } else {
        assert(s[s.len() - 1] == s.filter(pred)[j]);
    }
}

} // verus!
