//! Numbers per category and node, the messages that carry the totals per
//! category to subscribers, and how an entry is read into them. The numbers
//! (`N`) are the caller's: they may be doubles, which this library does not
//! compute with.
use vstd::prelude::*;
use crate::assoc::{
    assoc_find, assoc_get, assoc_insert, assoc_set, lemma_assoc_get_index, lemma_assoc_get_none,
    pairs_view,
};
use crate::command::{InitCommand, SocketError};
use crate::json::{Json, JsonNumber, JsonValue};
use crate::number::{decimal_text, format_i64};

verus! {

/// The kind of a message.
#[derive(Clone, Copy, Debug, PartialEq, Eq, Structural)]
pub enum CommandType {
    Init,
    Error,
    Data,
    InitialData,
    DataStoreEvent,
}

impl Default for CommandType {
    fn default() -> (r: CommandType)
        ensures
            r == CommandType::Init,
    {
        CommandType::Init
    }
}

/// The totals per category that subscribers are sent.
#[derive(Debug)]
pub struct DataStoreEvent<N> {
    pub categorical_number_data: Option<Vec<(String, N)>>,
}

impl<N> DataStoreEvent<N> {
    /// An event with no data.
    pub fn empty() -> (r: Self)
        ensures
            r.categorical_number_data is None,
    {
        DataStoreEvent { categorical_number_data: None }
    }

    /// Whether the event carries data.
    pub fn contains_data(&self) -> (r: bool)
        ensures
            r == self.categorical_number_data is Some,
    {
        self.categorical_number_data.is_some()
    }
}

/// A message: its kind and the one part that kind carries.
#[derive(Debug)]
pub struct Command<N> {
    pub kind: CommandType,
    pub init_command: Option<InitCommand>,
    pub error: Option<SocketError>,
    pub event: Option<DataStoreEvent<N>>,
    pub initial_data: Option<DataStoreEvent<N>>,
    pub data: Option<Json>,
}

impl<N> Command<N> {
    /// An error message.
    pub fn new_error(error: SocketError) -> (r: Self)
        ensures
            r.kind == CommandType::Error,
            r.error == Some(error),
            r.init_command is None && r.event is None && r.initial_data is None && r.data is None,
    {
        Command {
            kind: CommandType::Error,
            init_command: None,
            error: Some(error),
            event: None,
            initial_data: None,
            data: None,
        }
    }

    /// The first message of a client.
    pub fn new_init(init_command: InitCommand) -> (r: Self)
        ensures
            r.kind == CommandType::Init,
            r.init_command == Some(init_command),
            r.error is None && r.event is None && r.initial_data is None && r.data is None,
    {
        Command {
            kind: CommandType::Init,
            init_command: Some(init_command),
            error: None,
            event: None,
            initial_data: None,
            data: None,
        }
    }

    /// A message that shares data.
    pub fn new_data(data: Json) -> (r: Self)
        ensures
            r.kind == CommandType::Data,
            r.data == Some(data),
            r.init_command is None && r.error is None && r.event is None && r.initial_data is None,
    {
        Command {
            kind: CommandType::Data,
            init_command: None,
            error: None,
            event: None,
            initial_data: None,
            data: Some(data),
        }
    }

    /// The message with all data, for a new subscriber.
    pub fn new_initial_data(data: DataStoreEvent<N>) -> (r: Self)
        ensures
            r.kind == CommandType::InitialData,
            r.initial_data == Some(data),
            r.init_command is None && r.error is None && r.event is None && r.data is None,
    {
        Command {
            kind: CommandType::InitialData,
            init_command: None,
            error: None,
            event: None,
            initial_data: Some(data),
            data: None,
        }
    }

    /// The message with changed data.
    pub fn new_event(event: DataStoreEvent<N>) -> (r: Self)
        ensures
            r.kind == CommandType::DataStoreEvent,
            r.event == Some(event),
            r.init_command is None && r.error is None && r.initial_data is None && r.data is None,
    {
        Command {
            kind: CommandType::DataStoreEvent,
            init_command: None,
            error: None,
            event: Some(event),
            initial_data: None,
            data: None,
        }
    }

    /// The event a subscriber hands to its listener: that of a data store
    /// event message; no other message carries one for it.
    pub fn into_event(self) -> (r: Option<DataStoreEvent<N>>)
        requires
            self.kind == CommandType::DataStoreEvent ==> self.event is Some,
        ensures
            r == if self.kind == CommandType::DataStoreEvent {
                self.event
            } else {
                None
            },
    {
        match self.kind {
            CommandType::DataStoreEvent => Some(self.event.unwrap()),
            _ => None,
        }
    }
}

/// The text a JSON number or string is read from: integers that fit an
/// `i64` in decimal, strings as they are; larger integers and doubles are
/// handed on to be written as doubles.
#[derive(Debug)]
pub enum NumberText {
    Text(String),
    LargeInteger(u64),
    Float(u64),
}

/// The text of a value that is read as a decimal: the decimal of an integer
/// that fits an `i64`, or the string.
pub open spec fn decimal_of(v: JsonValue) -> Option<Seq<char>> {
    match v {
        JsonValue::Number(JsonNumber::PosInt(n)) => if n <= i64::MAX {
            Some(decimal_text(n as int))
        } else {
            None
        },
        JsonValue::Number(JsonNumber::NegInt(i)) => Some(decimal_text(i as int)),
        JsonValue::Str(s) => Some(s),
        _ => None,
    }
}

/// Reads a JSON number or string as the text of a number.
pub fn read_json_number_as_string(json_num: &Json) -> (r: NumberText)
    requires
        json_num.view() is Number || json_num.view() is Str,
    ensures
        match r {
            NumberText::Text(t) => decimal_of(json_num.view()) == Some(t@),
            NumberText::LargeInteger(n) => decimal_of(json_num.view()) is None && json_num.view()
                == JsonValue::Number(JsonNumber::PosInt(n)),
            NumberText::Float(b) => decimal_of(json_num.view()) is None && json_num.view()
                == JsonValue::Number(JsonNumber::Float(b)),
        },
{
    match json_num {
        Json::Number(JsonNumber::PosInt(n)) => {
            if *n <= 0x7fff_ffff_ffff_ffffu64 {
                NumberText::Text(format_i64(*n as i64))
            } else {
                NumberText::LargeInteger(*n)
            }
        },
        Json::Number(JsonNumber::NegInt(i)) => NumberText::Text(format_i64(*i)),
        Json::Number(JsonNumber::Float(b)) => NumberText::Float(*b),
        _ => NumberText::Text(crate::chart::owned(json_num.as_str().unwrap())),
    }
}

/// What an entry asks of the store: nothing (it has no category), an event
/// only (it has no number), or storing its number under its category.
#[derive(Debug)]
pub enum EntryPlan<'a> {
    Ignore,
    Report,
    Store(&'a str, &'a Json),
}

/// What an entry asks of the store: a non-null `category` is needed for
/// anything; with a non-null `number` too, that number is stored under the
/// category (which must then be a string).
pub fn plan_entry(json: &Json) -> (r: EntryPlan)
    requires
        !(json.view().index("category"@) is Null) && !(json.view().index("number"@) is Null)
            ==> json.view().index("category"@) is Str,
    ensures
        json.view().index("category"@) is Null ==> r is Ignore,
        !(json.view().index("category"@) is Null) && json.view().index("number"@) is Null ==> r is Report,
        !(json.view().index("category"@) is Null) && !(json.view().index("number"@) is Null) ==> (r matches EntryPlan::Store(
            c,
            n,
        ) && JsonValue::Str(c@) == json.view().index("category"@) && n.view() == json.view().index("number"@)),
{
    match json.get("category") {
        None => EntryPlan::Ignore,
        Some(Json::Null) => EntryPlan::Ignore,
        Some(category) => match json.get("number") {
            None => EntryPlan::Report,
            Some(Json::Null) => EntryPlan::Report,
            Some(number) => EntryPlan::Store(category.as_str().unwrap(), number),
        },
    }
}

/// What an entry asks of the category totals: nothing unless both `category`
/// and `number` are set (not null); then the number, which must be a string,
/// is added to the total kept under the category.
#[derive(Debug)]
pub enum TotalPlan<'a> {
    Ignore,
    Add(&'a Json, &'a str),
}

/// What an entry asks of the category totals.
pub fn plan_total(json: &Json) -> (r: TotalPlan)
    requires
        !(json.view().index("category"@) is Null) && !(json.view().index("number"@) is Null)
            ==> json.view().index("number"@) is Str,
    ensures
        r is Ignore <==> (json.view().index("category"@) is Null || json.view().index("number"@) is Null),
        r matches TotalPlan::Add(c, n) ==> c.view() == json.view().index("category"@) && JsonValue::Str(n@)
            == json.view().index("number"@),
{
    match json.get("category") {
        None => TotalPlan::Ignore,
        Some(Json::Null) => TotalPlan::Ignore,
        Some(category) => match json.get("number") {
            None => TotalPlan::Ignore,
            Some(Json::Null) => TotalPlan::Ignore,
            Some(number) => TotalPlan::Add(category, number.as_str().unwrap()),
        },
    }
}

/// The numbers per node and category, as the view sees them.
pub type NodesView<N> = Seq<(Seq<char>, Seq<(Seq<char>, N)>)>;

/// The store after a node's number for a category: the table found under the
/// category's name (the store looks the category up among the nodes) gets
/// the number; where there is none, the node's table is replaced by one
/// holding only this number.
pub open spec fn stored<N>(nodes: NodesView<N>, from: Seq<char>, key: Seq<char>, n: N) -> NodesView<N> {
    match assoc_get(nodes, key) {
        Some(m) => assoc_insert(nodes, key, assoc_insert(m, key, n)),
        None => assoc_insert(nodes, from, seq![(key, n)]),
    }
}

/// The numbers stored for a category, one per node that has one, in node order.
pub open spec fn numbers_in<N>(nodes: NodesView<N>, c: Seq<char>) -> Seq<N>
    decreases nodes.len(),
{
    if nodes.len() == 0 {
        Seq::empty()
    } else {
        let rest = numbers_in(nodes.drop_last(), c);
        match assoc_get(nodes.last().1, c) {
            Some(n) => rest.push(n),
            None => rest,
        }
    }
}

/// The table has a number for the category.
pub open spec fn in_table<N>(t: Seq<(Seq<char>, N)>, c: Seq<char>) -> bool {
    exists|j: int| 0 <= j < t.len() && #[trigger] t[j].0 == c
}

/// The category is among the listed names.
pub open spec fn listed(names: Seq<String>, c: Seq<char>) -> bool {
    exists|x: int| 0 <= x < names.len() && #[trigger] names[x]@ == c
}

/// Some node has a number for the category.
pub open spec fn has_category<N>(nodes: NodesView<N>, c: Seq<char>) -> bool {
    exists|i: int| 0 <= i < nodes.len() && #[trigger] in_table(nodes[i].1, c)
}

/// Numbers by node and category.
pub struct DataStore<N> {
    categorical_number_data: Vec<(String, Vec<(String, N)>)>,
}

impl<N> DataStore<N> {
    /// The tables of the nodes.
    pub closed spec fn nodes(&self) -> NodesView<N> {
        self.categorical_number_data@.map_values(
            |p: (String, Vec<(String, N)>)| (p.0@, pairs_view(p.1@)),
        )
    }

    /// An empty store.
    pub fn new() -> (r: Self)
        ensures
            r.nodes() == Seq::<(Seq<char>, Seq<(Seq<char>, N)>)>::empty(),
    {
        let r = DataStore { categorical_number_data: Vec::new() };
        assert(r.nodes() =~= Seq::<(Seq<char>, Seq<(Seq<char>, N)>)>::empty());
        r
    }

    /// Stores a node's number for a category.
    pub fn store_number(&mut self, from: String, key: String, n: N)
        ensures
            final(self).nodes() == stored(old(self).nodes(), from@, key@, n),
    {
        let ghost nodes = self.nodes();
        let ghost k = key@;
        let ghost f = from@;
        let ghost nn = n;
        match assoc_find(&self.categorical_number_data, key.as_str()) {
            Some(i) => {
                proof {
                    assert forall|j: int| 0 <= j < i implies nodes[j].0 != k by {
                        assert(nodes[j].0 == self.categorical_number_data@[j].0@);
                    }
                    assert(nodes[i as int].0 == k);
                    lemma_assoc_get_index(nodes, k, i as int);
                }
                let (name, mut table) = self.categorical_number_data.remove(i);
                let ghost m = pairs_view(table@);
                assert(m == nodes[i as int].1);
                let ghost nm = name@;
                assoc_set(&mut table, key, n);
                let ghost t2 = pairs_view(table@);
                self.categorical_number_data.insert(i, (name, table));
                proof {
                    crate::assoc::lemma_assoc_insert_shape(nodes, k, assoc_insert(m, k, nn), i as int);
                    assert(self.nodes() =~= nodes.update(i as int, (k, assoc_insert(m, k, nn))));
                }
            },
            None => {
                proof {
                    assert forall|j: int| 0 <= j < nodes.len() implies nodes[j].0 != k by {
                        assert(nodes[j].0 == self.categorical_number_data@[j].0@);
                    }
                    lemma_assoc_get_none(nodes, k);
                }
                let mut table: Vec<(String, N)> = Vec::new();
                table.push((key, n));
                assert(pairs_view(table@) =~= seq![(k, nn)]);
                match assoc_find(&self.categorical_number_data, from.as_str()) {
                    Some(j) => {
                        proof {
                            assert forall|x: int| 0 <= x < j implies nodes[x].0 != f by {
                                assert(nodes[x].0 == self.categorical_number_data@[x].0@);
                            }
                            assert(nodes[j as int].0 == f);
                            crate::assoc::lemma_assoc_insert_shape(nodes, f, seq![(k, nn)], j as int);
                        }
                        self.categorical_number_data.set(j, (from, table));
                        assert(self.nodes() =~= nodes.update(j as int, (f, seq![(k, nn)])));
                    },
                    None => {
                        proof {
                            assert forall|x: int| 0 <= x < nodes.len() implies nodes[x].0 != f by {
                                assert(nodes[x].0 == self.categorical_number_data@[x].0@);
                            }
                            crate::assoc::lemma_assoc_insert_shape(nodes, f, seq![(k, nn)], nodes.len() as int);
                        }
                        self.categorical_number_data.push((from, table));
                        assert(self.nodes() =~= nodes.push((f, seq![(k, nn)])));
                    },
                }
            },
        }
    }

    /// The numbers stored for a category, one per node that has one, in node order.
    pub fn numbers_of(&self, category: &str) -> (r: Vec<&N>)
        ensures
            r@.map_values(|x: &N| *x) == numbers_in(self.nodes(), category@),
    {
        let ghost nodes = self.nodes();
        let mut out: Vec<&N> = Vec::new();
        let mut i: usize = 0;
        while i < self.categorical_number_data.len()
            invariant
                nodes == self.nodes(),
                i <= self.categorical_number_data@.len(),
                out@.map_values(|x: &N| *x) == numbers_in(nodes.take(i as int), category@),
            decreases self.categorical_number_data.len() - i,
        {
            let table = &self.categorical_number_data[i].1;
            let ghost before = out@.map_values(|x: &N| *x);
            assert(nodes.take(i + 1).drop_last() =~= nodes.take(i as int));
            assert(nodes.take(i + 1).last() == nodes[i as int]);
            assert(nodes[i as int].1 == pairs_view(table@));
            match assoc_find(table, category) {
                Some(j) => {
                    proof {
                        let m = pairs_view(table@);
                        assert forall|x: int| 0 <= x < j implies m[x].0 != category@ by {
                            assert(m[x].0 == table@[x].0@);
                        }
                        assert(m[j as int].0 == category@);
                        lemma_assoc_get_index(m, category@, j as int);
                    }
                    out.push(&table[j].1);
                    assert(out@.map_values(|x: &N| *x) =~= before.push(table@[j as int].1));
                },
                None => {
                    proof {
                        let m = pairs_view(table@);
                        assert forall|x: int| 0 <= x < m.len() implies m[x].0 != category@ by {
                            assert(m[x].0 == table@[x].0@);
                        }
                        lemma_assoc_get_none(m, category@);
                    }
                },
            }
            i = i + 1;
        }
        assert(nodes.take(i as int) =~= nodes);
        out
    }

    /// The categories that some node has a number for, each once, in the
    /// order they first appear.
    pub fn categories(&self) -> (r: Vec<String>)
        ensures
            forall|c: Seq<char>| has_category(self.nodes(), c) <==> listed(r@, c),
            forall|a: int, b: int| 0 <= a < b < r@.len() ==> r@[a]@ != r@[b]@,
    {
        let ghost nodes = self.nodes();
        let mut out: Vec<String> = Vec::new();
        let mut i: usize = 0;
        while i < self.categorical_number_data.len()
            invariant
                nodes == self.nodes(),
                i <= self.categorical_number_data@.len(),
                forall|a: int, b: int| 0 <= a < b < out@.len() ==> out@[a]@ != out@[b]@,
                forall|c: Seq<char>|
                    #![trigger listed(out@, c)]
                    #![trigger has_category(nodes.take(i as int), c)]
                    has_category(nodes.take(i as int), c) <==> listed(out@, c),
            decreases self.categorical_number_data.len() - i,
        {
            let table = &self.categorical_number_data[i].1;
            let ghost t = pairs_view(table@);
            assert(nodes[i as int].1 == t);
            let mut j: usize = 0;
            assert(t.take(0) =~= Seq::<(Seq<char>, N)>::empty());
            while j < table.len()
                invariant
                    nodes == self.nodes(),
                    i < self.categorical_number_data@.len(),
                    t == pairs_view(table@),
                    nodes[i as int].1 == t,
                    j <= table@.len(),
                    forall|a: int, b: int| 0 <= a < b < out@.len() ==> out@[a]@ != out@[b]@,
                    forall|c: Seq<char>|
                        #![trigger listed(out@, c)]
                        #![trigger has_category(nodes.take(i as int), c)]
                        #![trigger in_table(t.take(j as int), c)]
                        (has_category(nodes.take(i as int), c) || in_table(t.take(j as int), c)) <==> listed(out@, c),
                decreases table.len() - j,
            {
                let name = &table[j].0;
                assert(t[j as int].0 == name@);
                let mut found = false;
                let mut x: usize = 0;
                while x < out.len()
                    invariant
                        x <= out@.len(),
                        found == exists|y: int| 0 <= y < x && out@[y]@ == name@,
                    decreases out.len() - x,
                {
                    if out[x] == *name {
                        found = true;
                    }
                    x = x + 1;
                }
                assert(found == listed(out@, name@));
                let ghost before = out@;
                if !found {
                    out.push(name.clone());
                }
                proof {
                    assert forall|c: Seq<char>| #![trigger listed(out@, c)] (has_category(nodes.take(i as int), c) || in_table(t.take(j + 1), c)) <==> listed(out@, c) by {
                        assert(in_table(t.take(j + 1), c) <==> (in_table(t.take(j as int), c) || c == name@)) by {
                            if in_table(t.take(j + 1), c) {
                                let y = choose|y: int| 0 <= y < t.take(j + 1).len() && #[trigger] t.take(j + 1)[y].0 == c;
                                if y < j {
                                    assert(t.take(j as int)[y] == t.take(j + 1)[y]);
                                }
                            }
                            if in_table(t.take(j as int), c) {
                                let y = choose|y: int| 0 <= y < t.take(j as int).len() && #[trigger] t.take(j as int)[y].0 == c;
                                assert(t.take(j + 1)[y] == t.take(j as int)[y]);
                            }
                            if c == name@ {
                                assert(t.take(j + 1)[j as int].0 == c);
                            }
                        }
                        assert(listed(out@, c) <==> (listed(before, c) || (!found && c == name@))) by {
                            if listed(out@, c) {
                                let y = choose|y: int| 0 <= y < out@.len() && #[trigger] out@[y]@ == c;
                                if y < before.len() {
                                    assert(before[y] == out@[y]);
                                }
                            }
                            if listed(before, c) {
                                let y = choose|y: int| 0 <= y < before.len() && #[trigger] before[y]@ == c;
                                assert(out@[y] == before[y]);
                            }
                            if !found && c == name@ {
                                assert(out@[out@.len() - 1]@ == c);
                            }
                        }
                        assert((has_category(nodes.take(i as int), c) || in_table(t.take(j as int), c)) <==> listed(before, c));
                    }
                    assert forall|a: int, b: int| 0 <= a < b < out@.len() implies out@[a]@ != out@[b]@ by {
                        if !found && b == out@.len() - 1 {
                            assert(out@[a] == before[a]);
                            assert(!(exists|y: int| 0 <= y < before.len() && before[y]@ == name@));
                        } else {
                            assert(out@[a] == before[a] && out@[b] == before[b]);
                        }
                    }
                }
                j = j + 1;
            }
            proof {
                assert(t.take(table@.len() as int) =~= t);
                assert forall|c: Seq<char>| #![trigger listed(out@, c)] has_category(nodes.take(i + 1), c) <==> listed(out@, c) by {
                    assert(nodes.take(i + 1)[i as int] == nodes[i as int]);
                    if has_category(nodes.take(i + 1), c) {
                        let a = choose|a: int| 0 <= a < nodes.take(i + 1).len() && #[trigger] in_table(nodes.take(i + 1)[a].1, c);
                        if a < i {
                            assert(nodes.take(i as int)[a] == nodes.take(i + 1)[a]);
                            assert(has_category(nodes.take(i as int), c));
                        }
                    }
                    if has_category(nodes.take(i as int), c) {
                        let a = choose|a: int| 0 <= a < nodes.take(i as int).len() && #[trigger] in_table(nodes.take(i as int)[a].1, c);
                        assert(nodes.take(i + 1)[a] == nodes.take(i as int)[a]);
                    }
                    if in_table(t, c) {
                        assert(in_table(nodes.take(i + 1)[i as int].1, c));
                    }
                    assert((has_category(nodes.take(i as int), c) || in_table(t.take(table@.len() as int), c)) <==> listed(out@, c));
                }
            }
            i = i + 1;
        }
        assert(nodes.take(i as int) =~= nodes);
        out
    }
}

} // verus!
