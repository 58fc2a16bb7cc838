//! The hub's state: one JSON object that every data type folds new data
//! into; each new entry yields the difference to send to subscribers.
use vstd::prelude::*;
use crate::chart::{chart_can_process, chart_processable, chart_processed, Chart, DataType};
use crate::command::Command;
use crate::json::{
    empty_object, entries_insert, entries_put, entries_view, lemma_view_object, Entries, Json,
    JsonValue,
};
use crate::json_diff::{difference_of, json_difference};

verus! {

/// The state of the hub.
pub struct DataStore {
    pub current_state: Json,
}

impl DataStore {
    /// A hub with an empty state.
    pub fn new() -> (r: DataStore)
        ensures
            r.current_state.view() == empty_object(),
    {
        let e: Vec<(String, Json)> = Vec::new();
        proof {
            lemma_view_object(e);
            assert(entries_view(e@) =~= Seq::empty());
        }
        DataStore { current_state: Json::Object(e) }
    }

    /// Whether the state takes an entry without failing.
    pub fn can_add_entry(&self, json: &Json) -> (r: bool)
        ensures
            r == (self.current_state.view() is Object && chart_processable(
                json.view(),
                self.current_state.view()->Object_0,
            )),
    {
        match &self.current_state {
            Json::Object(entries) => {
                proof {
                    lemma_view_object(*entries);
                }
                chart_can_process(json, entries)
            },
            _ => false,
        }
    }

    /// Folds an entry from a provider into the state and gives the message
    /// that carries the difference between the old and the new state.
    pub fn add_entry(&mut self, from: String, json: &Json) -> (r: Command)
        requires
            old(self).current_state.view() is Object,
            chart_processable(json.view(), old(self).current_state.view()->Object_0),
        ensures
            final(self).current_state.view() == JsonValue::Object(
                chart_processed(json.view(), old(self).current_state.view()->Object_0),
            ),
            r matches Command::Data(d) && d.view() == json_difference(
                old(self).current_state.view(),
                final(self).current_state.view(),
            ),
    {
        let chart = Chart::new();
        let old_object = self.current_state.deep_clone();
        let mut state = Json::Null;
        std::mem::swap(&mut state, &mut self.current_state);
        match state {
            Json::Object(mut entries) => {
                proof {
                    lemma_view_object(entries);
                }
                chart.process_data(json, &mut entries);
                proof {
                    lemma_view_object(entries);
                }
                self.current_state = Json::Object(entries);
            },
            _ => {},
        }
        let diff = difference_of(&old_object, &self.current_state);
        Command::Data(diff)
    }
}

/// Adds to an object the name of the data type that made it.
pub trait InjectDefaults {
    /// The value can take the name (it is an object).
    spec fn injectable(&self) -> bool;

    fn inject_defaults<T: DataType>(&mut self, creator: &T)
        requires
            old(self).injectable(),
    ;
}

impl InjectDefaults for Json {
    open spec fn injectable(&self) -> bool {
        self.view() is Object
    }

    fn inject_defaults<T: DataType>(&mut self, creator: &T)
        ensures
            final(self).view() == JsonValue::Object(
                entries_insert(old(self).view()->Object_0, "dataType"@, JsonValue::Str(creator.kind_name())),
            ),
    {
        let mut v = Json::Null;
        std::mem::swap(&mut v, self);
        match v {
            Json::Object(mut entries) => {
                proof {
                    lemma_view_object(entries);
                }
                let name = creator.name();
                entries_put(&mut entries, crate::chart::owned("dataType"), Json::String(name));
                proof {
                    lemma_view_object(entries);
                }
                *self = Json::Object(entries);
            },
            _ => {},
        }
    }
}

// ----- laws ------------------------------------------------------------------

/// The state after an entry: what the chart type makes of the old state.
pub open spec fn state_after_entry(state: JsonValue, data: JsonValue) -> JsonValue {
    JsonValue::Object(chart_processed(data, state->Object_0))
}

/// A well-formed state stays well-formed after a well-formed entry, and the
/// difference sent for it is well-formed JSON too.
pub proof fn lemma_add_entry_keeps_state_wf(state: JsonValue, data: JsonValue)
    requires
        state is Object,
        state.wf(),
        data.wf(),
        chart_processable(data, state->Object_0),
    ensures
        state_after_entry(state, data).wf(),
        json_difference(state, state_after_entry(state, data)).wf(),
{
    crate::chart::lemma_chart_processed_wf(data, state->Object_0);
    crate::json_diff::lemma_difference_wf(state, state_after_entry(state, data));
}

/// An entry that is not a titled block leaves the state as it is, and the
/// difference sent for it is the empty object.
pub proof fn lemma_untitled_entry_sends_nothing(state: JsonValue, data: JsonValue)
    requires
        state is Object,
        state.wf(),
        crate::data_utils::title_block(data) is None,
    ensures
        state_after_entry(state, data) == state,
        json_difference(state, state_after_entry(state, data)) == empty_object(),
{
    crate::json_diff::lemma_difference_of_self(state);
}

} // verus!
