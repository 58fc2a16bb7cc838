use howl::chart::{chart_can_process, Chart, ChartAxisXType, ChartError, ChartObject, DataType};
use howl::json::{Json, JsonNumber};

fn s(t: &str) -> String {
    t.to_string()
}

fn num(n: u64) -> Json {
    Json::Number(JsonNumber::PosInt(n))
}

fn obj(entries: Vec<(&str, Json)>) -> Json {
    Json::object_from(entries.into_iter().map(|(k, v)| (s(k), v)).collect())
}

fn block(title: &str, timestamp: u64, value: u64) -> Json {
    obj(vec![
        ("title", Json::String(s(title))),
        ("data", Json::Array(vec![obj(vec![("timestamp", num(timestamp)), ("value", num(value))])])),
    ])
}

fn chart_json(title: &str, values: Vec<u64>, points: Vec<u64>) -> Json {
    obj(vec![
        ("title", Json::String(s(title))),
        ("values", Json::Array(vec![Json::Array(values.into_iter().map(num).collect())])),
        ("x_points", Json::Array(points.into_iter().map(num).collect())),
        ("x_type", Json::String(s("DateTime"))),
    ])
}

#[test]
fn test_chart() {
    let mut test_state: Vec<(String, Json)> = Vec::new();
    let chart = Chart::new();
    chart.process_data(&block("Test", 2932438, 1), &mut test_state);
    let expected = obj(vec![("test", chart_json("Test", vec![1], vec![2932438]))]);
    assert!(Json::Object(test_state.iter().map(|(k, v)| (k.clone(), v.deep_clone())).collect()).json_equals(&expected));

    chart.process_data(&block("Test", 2932439, 2), &mut test_state);
    let expected = obj(vec![("test", chart_json("Test", vec![1, 2], vec![2932438, 2932439]))]);
    assert!(Json::Object(test_state.iter().map(|(k, v)| (k.clone(), v.deep_clone())).collect()).json_equals(&expected));

    chart.process_data(&block("Test2", 28320932, 3), &mut test_state);
    let expected = obj(vec![
        ("test", chart_json("Test", vec![1, 2], vec![2932438, 2932439])),
        ("test2", chart_json("Test2", vec![3], vec![28320932])),
    ]);
    assert!(Json::Object(test_state).json_equals(&expected));
}

#[test]
fn chart_name_is_chart() {
    assert_eq!(Chart::new().name(), "Chart");
}

#[test]
fn untitled_data_leaves_state_alone() {
    let mut state: Vec<(String, Json)> = Vec::new();
    Chart::new().process_data(&obj(vec![("category", Json::String(s("x")))]), &mut state);
    assert!(state.is_empty());
}

#[test]
fn title_without_rows_adds_an_empty_chart() {
    let mut state: Vec<(String, Json)> = Vec::new();
    let data = obj(vec![("title", Json::String(s("My Chart!"))), ("data", Json::String(s("nothing")))]);
    Chart::new().process_data(&data, &mut state);
    assert_eq!(state.len(), 1);
    assert_eq!(state[0].0, "my-chart-");
    let expected = obj(vec![
        ("title", Json::String(s("My Chart!"))),
        ("values", Json::Array(vec![])),
        ("x_points", Json::Array(vec![])),
        ("x_type", Json::String(s("Number"))),
    ]);
    assert!(state[0].1.json_equals(&expected));
}

#[test]
fn only_number_values_are_y_values() {
    let mut state: Vec<(String, Json)> = Vec::new();
    let data = obj(vec![
        ("title", Json::String(s("T"))),
        ("data", Json::Array(vec![obj(vec![("timestamp", num(5)), ("label", Json::String(s("a")))])])),
    ]);
    Chart::new().process_data(&data, &mut state);
    let expected = obj(vec![
        ("title", Json::String(s("T"))),
        ("values", Json::Array(vec![Json::Array(vec![])])),
        ("x_points", Json::Array(vec![num(5)])),
        ("x_type", Json::String(s("DateTime"))),
    ]);
    assert!(state[0].1.json_equals(&expected));
}

#[test]
fn chart_round_trips_through_json() {
    let c = ChartObject {
        title: s("A"),
        x_type: ChartAxisXType::DateTime,
        x_points: Json::Array(vec![num(1)]),
        values: vec![Json::Array(vec![num(2)])],
    };
    let j = c.into_json();
    let back = ChartObject::from_json(&j).unwrap();
    assert_eq!(back.title, "A");
    assert_eq!(back.x_type, ChartAxisXType::DateTime);
    assert!(back.x_points.json_equals(&Json::Array(vec![num(1)])));
    assert_eq!(back.values.len(), 1);
}

#[test]
fn chart_reads_from_array_form_and_map_form_axis() {
    let j = Json::Array(vec![
        Json::String(s("B")),
        obj(vec![("Number", Json::Null)]),
        Json::Null,
        Json::Array(vec![]),
    ]);
    let c = ChartObject::from_json(&j).unwrap();
    assert_eq!(c.title, "B");
    assert_eq!(c.x_type, ChartAxisXType::Number);
    assert!(ChartObject::from_json(&Json::Array(vec![Json::String(s("B"))])).is_none());
    assert!(ChartObject::from_json(&obj(vec![("title", Json::String(s("C")))])).is_none());
}

#[test]
fn add_entries_errors() {
    let mut c = ChartObject::with_title(s("x"));
    c.x_points = Json::Null;
    assert_eq!(c.add_entries(Json::Array(vec![]), vec![]), Err(ChartError::XPointsNotArray));
    let mut c = ChartObject::with_title(s("x"));
    assert_eq!(c.add_entries(Json::Null, vec![]), Err(ChartError::XNotArray));
    let mut c = ChartObject::with_title(s("x"));
    assert_eq!(c.add_entries(Json::Array(vec![num(1)]), vec![num(3)]), Err(ChartError::YNotArray));
    assert!(c.x_points.json_equals(&Json::Array(vec![num(1)])));
    assert_eq!(c.values.len(), 1);
    let mut c = ChartObject::with_title(s("x"));
    c.values = vec![Json::Null];
    assert_eq!(c.add_entries(Json::Array(vec![]), vec![Json::Array(vec![])]), Err(ChartError::ValueNotArray));
    assert_eq!(ChartError::YNotArray.message(), "y[idx] not an array");
}

#[test]
fn add_entries_grows_series() {
    let mut c = ChartObject::with_title(s("x"));
    let r = c.add_entries(
        Json::Array(vec![num(10), num(11)]),
        vec![Json::Array(vec![num(1)]), Json::Array(vec![num(2), num(3)])],
    );
    assert_eq!(r, Ok(()));
    assert_eq!(c.values.len(), 2);
    assert!(c.values[1].json_equals(&Json::Array(vec![num(2), num(3)])));
    assert!(c.x_points.json_equals(&Json::Array(vec![num(10), num(11)])));
}

#[test]
fn chart_can_process_titled_rows() {
    let state: Vec<(String, Json)> = Vec::new();
    assert!(chart_can_process(&block("Test", 1, 2), &state));
    assert!(chart_can_process(&obj(vec![("category", Json::String(s("x")))]), &state));
}

#[test]
fn chart_cannot_process_number_rows_or_bad_titles() {
    let state: Vec<(String, Json)> = Vec::new();
    let numbers = obj(vec![("title", Json::String(s("T"))), ("data", Json::Array(vec![num(1), num(2)]))]);
    assert!(!chart_can_process(&numbers, &state));
    let bad_title = obj(vec![("title", num(3)), ("data", Json::Array(vec![]))]);
    assert!(!chart_can_process(&bad_title, &state));
}

#[test]
fn chart_cannot_process_rows_missing_a_timestamp() {
    let state: Vec<(String, Json)> = Vec::new();
    let rows = obj(vec![
        ("title", Json::String(s("T"))),
        (
            "data",
            Json::Array(vec![
                obj(vec![("timestamp", num(1)), ("value", num(2))]),
                obj(vec![("value", num(3))]),
            ]),
        ),
    ]);
    assert!(!chart_can_process(&rows, &state));
}

#[test]
fn chart_cannot_add_rows_to_a_chart_of_two_series() {
    let two_series = obj(vec![
        ("title", Json::String(s("T"))),
        ("values", Json::Array(vec![Json::Array(vec![]), Json::Array(vec![])])),
        ("x_points", Json::Array(vec![])),
        ("x_type", Json::String(s("Number"))),
    ]);
    let state: Vec<(String, Json)> = vec![(s("t"), two_series)];
    assert!(!chart_can_process(&block("T", 1, 2), &state));
    assert!(chart_can_process(&block("U", 1, 2), &state));
}

#[test]
fn add_entries_succeeds_matches_add_entries() {
    let mut c = ChartObject::with_title(s("T"));
    let y = vec![Json::Array(vec![num(1)])];
    assert!(c.add_entries_succeeds(&Json::Array(vec![num(5)]), &y));
    assert!(!c.add_entries_succeeds(&num(5), &y));
    assert!(!c.add_entries_succeeds(&Json::Array(vec![]), &vec![num(1)]));
    assert_eq!(c.add_entries(Json::Array(vec![num(5)]), y), Ok(()));
    assert!(!c.add_entries_succeeds(&Json::Array(vec![]), &vec![]));
}

#[test]
fn default_chart_has_no_title() {
    let c = ChartObject::default();
    assert_eq!(c.title, "No title");
    assert_eq!(c.x_type, ChartAxisXType::Number);
    assert!(c.x_points.json_equals(&Json::Array(vec![])));
    assert!(c.values.is_empty());
}
