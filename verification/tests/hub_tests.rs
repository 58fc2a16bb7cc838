use howl::base_client::BaseClient;
use howl::categorical::{CategoricalNumberData, CategoricalNumberDataEntry, DataBlockKey};
use howl::command::{Command, InitCommand, InitCommandType, SocketErrorType};
use howl::data_store::{DataStore, InjectDefaults};
use howl::chart::Chart;
use howl::json::{Json, JsonNumber};
use howl::server::{PeerMap, Server};

fn s(t: &str) -> String {
    t.to_string()
}

fn num(n: u64) -> Json {
    Json::Number(JsonNumber::PosInt(n))
}

fn obj(entries: Vec<(&str, Json)>) -> Json {
    Json::object_from(entries.into_iter().map(|(k, v)| (s(k), v)).collect())
}

fn block(title: &str, timestamp: u64, value: u64) -> Json {
    obj(vec![
        ("title", Json::String(s(title))),
        ("data", Json::Array(vec![obj(vec![("timestamp", num(timestamp)), ("value", num(value))])])),
    ])
}

#[test]
fn init_command_type_names() {
    assert_eq!(InitCommandType::from_str("Provider"), Ok(InitCommandType::Provider));
    assert_eq!(InitCommandType::from_str("Subscriber"), Ok(InitCommandType::Subscriber));
    assert!(InitCommandType::from_str("provider").is_err());
    assert_eq!(InitCommandType::Subscriber.to_string(), "Subscriber");
    assert_eq!(InitCommandType::default(), InitCommandType::Provider);
    assert_eq!(InitCommand::default().kind, InitCommandType::Provider);
}

#[test]
fn base_client_routes_messages() {
    let mut c: BaseClient<&str, &str> = BaseClient::new(InitCommandType::Subscriber);
    assert!(c.execute_command(Command::Data(num(1))).is_none());
    c.set_on_new_data("new");
    c.set_on_initial_data("initial");
    c.set_command_out_tx("out");
    match c.execute_command(Command::Data(num(1))) {
        Some((tx, d)) => {
            assert_eq!(*tx, "new");
            assert!(d.json_equals(&num(1)));
        }
        None => panic!("data not routed"),
    }
    match c.execute_command(Command::InitialState(num(2))) {
        Some((tx, _)) => assert_eq!(*tx, "initial"),
        None => panic!("initial state not routed"),
    }
    assert!(c.execute_command(Command::CloseConnection).is_none());
    let (tx, cmd) = c.after_connection();
    assert_eq!(*tx, "out");
    assert!(matches!(cmd, Command::Init(InitCommand { kind: InitCommandType::Subscriber })));
    assert!(matches!(c.disconnect().1, Command::CloseConnection));
    assert!(matches!(c.share_data(num(3)).1, Command::Data(_)));
}

#[test]
fn peers_register_and_clean_up() {
    let mut providers: PeerMap<u32> = PeerMap::new();
    let mut subscribers: PeerMap<u32> = PeerMap::new();
    let init_sub = Command::Init(InitCommand { kind: InitCommandType::Subscriber });
    let init_pro = Command::Init(InitCommand { kind: InitCommandType::Provider });
    assert_eq!(Server::register_connection(&init_sub, s("a:1"), 1, &mut providers, &mut subscribers), Some(InitCommandType::Subscriber));
    assert_eq!(Server::register_connection(&init_pro, s("b:2"), 2, &mut providers, &mut subscribers), Some(InitCommandType::Provider));
    assert_eq!(Server::register_connection(&Command::CloseConnection, s("c:3"), 3, &mut providers, &mut subscribers), None);
    assert!(subscribers.contains_key("a:1"));
    assert!(providers.contains_key("b:2"));
    assert!(!providers.contains_key("c:3") && !subscribers.contains_key("c:3"));
    assert_eq!(subscribers.senders(), vec![&1]);
    Server::clean_closed_client("a:1", &mut providers, &mut subscribers);
    assert!(!subscribers.contains_key("a:1"));
    assert!(providers.contains_key("b:2"));
    assert!(subscribers.senders().is_empty());
}

#[test]
fn peer_insert_replaces() {
    let mut p: PeerMap<u32> = PeerMap::new();
    p.insert(s("x"), 1);
    p.insert(s("y"), 2);
    p.insert(s("x"), 3);
    assert_eq!(p.senders(), vec![&3, &2]);
    p.remove("x");
    assert_eq!(p.senders(), vec![&2]);
}

#[test]
fn data_store_sends_differences() {
    let mut store = DataStore::new();
    let cmd = store.add_entry(s("1"), &block("Test", 2932438, 1));
    match cmd {
        Command::Data(d) => {
            let test = d.get("test").unwrap();
            assert!(test.get("values").unwrap().json_equals(&Json::Array(vec![Json::Array(vec![num(1)])])));
        }
        _ => panic!("not data"),
    }
    let cmd = store.add_entry(s("1"), &obj(vec![("nothing", Json::Null)]));
    match cmd {
        Command::Data(d) => assert!(d.json_equals(&obj(vec![]))),
        _ => panic!("not data"),
    }
    let cmd = store.add_entry(s("1"), &block("Test", 2932439, 2));
    match cmd {
        Command::Data(d) => {
            let values = d.get("test").unwrap().get("values").unwrap();
            assert!(values.json_equals(&Json::Array(vec![Json::Array(vec![obj(vec![]), num(2)])])));
            assert!(d.get("test").unwrap().get("title").unwrap().json_equals(&obj(vec![])));
        }
        _ => panic!("not data"),
    }
}

#[test]
fn server_provider_and_subscriber_messages() {
    let mut store = DataStore::new();
    assert!(Server::provider_command(&s("p"), Command::CloseConnection, &mut store).is_none());
    let r = Server::provider_command(&s("p"), Command::Data(block("T", 1, 2)), &mut store);
    assert!(matches!(r, Some(Command::Data(_))));
    match Server::initial_state(&store) {
        Command::InitialState(state) => assert!(state.get("t").is_some()),
        _ => panic!("not initial state"),
    }
    match Server::parse_error(s("bad")) {
        Command::Error(e) => {
            assert_eq!(e.error_type, SocketErrorType::ParseError);
            assert_eq!(e.message, "bad");
        }
        _ => panic!("not an error"),
    }
    assert_eq!(Server::connection_role(&Command::Data(Json::Null)), None);
}

#[test]
fn inject_defaults_names_the_type() {
    let mut v = obj(vec![("a", num(1))]);
    v.inject_defaults(&Chart {});
    assert!(v.get("dataType").unwrap().json_equals(&Json::String(s("Chart"))));
    assert!(v.get("a").is_some());
}

#[test]
fn categorical_numbers_keep_last_entry() {
    let key = |c: &str| DataBlockKey { category: s(c), title: s("t"), from: s("n") };
    let entry = |n: u32| CategoricalNumberDataEntry { number: n, converted_values: vec![], suffix: None };
    let mut data = CategoricalNumberData::new();
    data.add_number(key("a"), entry(1));
    data.add_number(key("b"), entry(2));
    data.add_number(key("a"), entry(3));
    assert_eq!(data.numbers.len(), 2);
    assert_eq!(data.numbers[0].1.number, 3);
    assert_eq!(data.numbers[1].1.number, 2);
    assert!(key("a") == key("a"));
    assert!(key("a") != key("b"));
}

#[test]
fn data_store_tells_which_entries_it_takes() {
    let mut store = DataStore::new();
    assert!(store.can_add_entry(&block("Test", 1, 2)));
    let numbers = obj(vec![("title", Json::String(s("T"))), ("data", Json::Array(vec![num(1)]))]);
    assert!(!store.can_add_entry(&numbers));
    store.current_state = Json::Null;
    assert!(!store.can_add_entry(&block("Test", 1, 2)));
}
