use howl::json::{Json, JsonNumber};
use howl::network::{
    plan_entry, plan_total, read_json_number_as_string, Command, CommandType, DataStore, DataStoreEvent, EntryPlan, NumberText,
    TotalPlan,
};
use howl::command::{InitCommand, InitCommandType, SocketError, SocketErrorType};

fn s(t: &str) -> String {
    t.to_string()
}

fn obj(entries: Vec<(&str, Json)>) -> Json {
    Json::object_from(entries.into_iter().map(|(k, v)| (s(k), v)).collect())
}

fn numbers(store: &DataStore<String>, c: &str) -> Vec<String> {
    store.numbers_of(c).into_iter().cloned().collect()
}

fn entry(category: &str, number: Json) -> Json {
    obj(vec![("category", Json::String(s(category))), ("number", number)])
}

fn add_entry(store: &mut DataStore<String>, from: &str, json: &Json) {
    match plan_entry(json) {
        EntryPlan::Store(category, number) => {
            let text = match read_json_number_as_string(number) {
                NumberText::Text(t) => t,
                NumberText::Float(b) => format!("{}", f64::from_bits(b)),
                NumberText::LargeInteger(n) => format!("{}", n as f64),
            };
            store.store_number(s(from), s(category), text);
        }
        _ => panic!("entry not stored"),
    }
}

#[test]
fn datastore_test() {
    let mut store: DataStore<String> = DataStore::new();
    add_entry(&mut store, "1", &entry("test_%", Json::Number(JsonNumber::PosInt(203))));
    assert_eq!(numbers(&store, "test_%"), vec!["203"]);
    add_entry(&mut store, "1", &entry("test2_%", Json::String(s("12"))));
    assert_eq!(numbers(&store, "test2_%"), vec!["12"]);
    assert!(numbers(&store, "test_%").is_empty());
    add_entry(&mut store, "2", &entry("test2_%", Json::Number(JsonNumber::Float(983.3f64.to_bits()))));
    assert_eq!(numbers(&store, "test2_%"), vec!["12", "983.3"]);
    add_entry(&mut store, "1", &entry("test2_%", Json::Number(JsonNumber::PosInt(13))));
    assert_eq!(numbers(&store, "test2_%"), vec!["13", "983.3"]);
    assert_eq!(store.categories(), vec![s("test2_%")]);
}

#[test]
fn store_finds_the_table_by_category_name() {
    let mut store: DataStore<u32> = DataStore::new();
    store.store_number(s("x"), s("x"), 1);
    store.store_number(s("n"), s("x"), 2);
    assert_eq!(store.numbers_of("x"), vec![&2]);
    store.store_number(s("n"), s("y"), 3);
    let mut cats = store.categories();
    cats.sort();
    assert_eq!(cats, vec![s("x"), s("y")]);
}

#[test]
fn number_texts() {
    match read_json_number_as_string(&Json::Number(JsonNumber::NegInt(-12))) {
        NumberText::Text(t) => assert_eq!(t, "-12"),
        _ => panic!(),
    }
    match read_json_number_as_string(&Json::Number(JsonNumber::PosInt(u64::MAX))) {
        NumberText::LargeInteger(n) => assert_eq!(n, u64::MAX),
        _ => panic!(),
    }
    match read_json_number_as_string(&Json::Number(JsonNumber::Float(0x4000_0000_0000_0000))) {
        NumberText::Float(b) => assert_eq!(b, 0x4000_0000_0000_0000),
        _ => panic!(),
    }
    match read_json_number_as_string(&Json::String(s("12"))) {
        NumberText::Text(t) => assert_eq!(t, "12"),
        _ => panic!(),
    }
}

#[test]
fn entry_plans() {
    assert!(matches!(plan_entry(&obj(vec![("number", Json::Number(JsonNumber::PosInt(1)))])), EntryPlan::Ignore));
    assert!(matches!(plan_entry(&Json::Null), EntryPlan::Ignore));
    assert!(matches!(plan_entry(&obj(vec![("category", Json::String(s("c")))])), EntryPlan::Report));
    match plan_entry(&obj(vec![("category", Json::String(s("c"))), ("number", Json::Number(JsonNumber::PosInt(5)))])) {
        EntryPlan::Store(c, n) => {
            assert_eq!(c, "c");
            assert_eq!(n.as_u64(), Some(5));
        }
        _ => panic!(),
    }
}

#[test]
fn command_constructors() {
    let c: Command<u32> = Command::new_init(InitCommand { kind: InitCommandType::Subscriber });
    assert_eq!(c.kind, CommandType::Init);
    assert!(c.init_command.is_some() && c.data.is_none());
    let c: Command<u32> = Command::new_error(SocketError { error_type: SocketErrorType::WrongInitType, message: s("m") });
    assert_eq!(c.kind, CommandType::Error);
    let c: Command<u32> = Command::new_data(Json::Null);
    assert_eq!(c.kind, CommandType::Data);
    let c: Command<u32> = Command::new_event(DataStoreEvent { categorical_number_data: Some(vec![(s("a"), 1)]) });
    assert_eq!(c.kind, CommandType::DataStoreEvent);
    assert!(c.event.as_ref().unwrap().contains_data());
    let c: Command<u32> = Command::new_initial_data(DataStoreEvent::empty());
    assert_eq!(c.kind, CommandType::InitialData);
    assert!(!c.initial_data.as_ref().unwrap().contains_data());
    assert_eq!(CommandType::default(), CommandType::Init);
}

#[test]
fn totals_take_entries_with_both_fields() {
    let e = entry("a", Json::String(s("1.5")));
    match plan_total(&e) {
        TotalPlan::Add(c, n) => {
            assert!(c.json_equals(&Json::String(s("a"))));
            assert_eq!(n, "1.5");
        }
        TotalPlan::Ignore => panic!("ignored"),
    }
    assert!(matches!(plan_total(&entry("a", Json::Null)), TotalPlan::Ignore));
    assert!(matches!(plan_total(&obj(vec![("number", Json::String(s("1")))])), TotalPlan::Ignore));
}

#[test]
fn only_event_messages_carry_an_event() {
    let event: DataStoreEvent<u32> = DataStoreEvent { categorical_number_data: Some(vec![(s("a"), 4)]) };
    let got = Command::new_event(event).into_event().unwrap();
    assert_eq!(got.categorical_number_data, Some(vec![(s("a"), 4)]));
    let data: Command<u32> = Command::new_data(Json::Null);
    assert!(data.into_event().is_none());
}
