use howl::json::{Json, JsonNumber};
use howl::json_diff::{difference_of, Difference};
use howl::data_utils::filter_recursively;

fn s(t: &str) -> String {
    t.to_string()
}

fn num(n: u64) -> Json {
    Json::Number(JsonNumber::PosInt(n))
}

fn obj(entries: Vec<(&str, Json)>) -> Json {
    Json::object_from(entries.into_iter().map(|(k, v)| (s(k), v)).collect())
}

#[test]
fn object_from_sorts_and_keeps_last() {
    let o = obj(vec![("b", num(1)), ("a", num(2)), ("b", num(3))]);
    match &o {
        Json::Object(e) => {
            assert_eq!(e.len(), 2);
            assert_eq!(e[0].0, "a");
            assert_eq!(e[1].0, "b");
            assert!(e[1].1.json_equals(&num(3)));
        }
        _ => panic!("not an object"),
    }
    assert!(o.get("a").unwrap().json_equals(&num(2)));
    assert!(o.get("c").is_none());
    assert!(o.index("c").is_null());
    assert!(num(1).get("a").is_none());
}

#[test]
fn equality_follows_the_json_library() {
    let pos_zero = Json::Number(JsonNumber::Float(0));
    let neg_zero = Json::Number(JsonNumber::Float(0x8000_0000_0000_0000));
    assert!(pos_zero.json_equals(&neg_zero));
    assert!(!num(1).json_equals(&Json::Number(JsonNumber::Float(0x3ff0_0000_0000_0000))));
    assert!(!Json::Null.json_equals(&Json::Bool(false)));
    assert!(Json::Array(vec![num(1)]).json_equals(&Json::Array(vec![num(1)])));
    assert!(!Json::Array(vec![num(1)]).json_equals(&Json::Array(vec![num(1), num(2)])));
}

#[test]
fn difference_of_equal_states_is_empty_object() {
    let a = obj(vec![("x", num(1)), ("y", Json::Array(vec![num(2)]))]);
    let d = a.difference(&a.deep_clone());
    assert!(d.json_equals(&obj(vec![])));
}

#[test]
fn difference_keeps_new_keys_and_recurses() {
    let old = obj(vec![("x", num(1)), ("y", obj(vec![("z", num(2)), ("w", num(3))]))]);
    let new = obj(vec![("x", num(1)), ("y", obj(vec![("z", num(5)), ("w", num(3))])), ("v", Json::Bool(true))]);
    let d = difference_of(&old, &new);
    let expected = obj(vec![
        ("v", Json::Bool(true)),
        ("x", obj(vec![])),
        ("y", obj(vec![("w", obj(vec![])), ("z", num(5))])),
    ]);
    assert!(d.json_equals(&expected));
}

#[test]
fn difference_of_arrays_is_index_by_index() {
    let old = Json::Array(vec![num(1), num(2)]);
    let new = Json::Array(vec![num(1), num(3), num(4)]);
    let d = difference_of(&old, &new);
    assert!(d.json_equals(&Json::Array(vec![obj(vec![]), num(3), num(4)])));
}

#[test]
fn difference_of_different_kinds_is_new_value() {
    assert!(difference_of(&Json::Null, &num(7)).json_equals(&num(7)));
    assert!(difference_of(&num(7), &Json::Null).json_equals(&Json::Null));
    assert!(difference_of(&Json::String(s("a")), &Json::String(s("b"))).json_equals(&Json::String(s("b"))));
    assert!(difference_of(&Json::Array(vec![]), &obj(vec![("a", num(1))])).json_equals(&obj(vec![("a", num(1))])));
}

#[test]
fn filter_recursively_walks_in_order() {
    let v = obj(vec![
        ("a", num(1)),
        ("b", Json::Array(vec![num(2), Json::String(s("t")), num(3)])),
    ]);
    let found = filter_recursively(&v, &|j: &Json| j.is_number());
    let got: Vec<u64> = found.iter().map(|j| j.as_u64().unwrap()).collect();
    assert_eq!(got, vec![1, 1, 2, 3]);
}

#[test]
fn deep_clone_is_equal() {
    let v = obj(vec![("a", Json::Array(vec![Json::String(s("x")), Json::Null]))]);
    assert!(v.deep_clone().json_equals(&v));
}
