use flatten_json_object::error::Error;
use flatten_json_object::ArrayFormatting;
use flatten_json_object::Flattener;
use serde_json::Value;

fn json(text: &str) -> Value {
    serde_json::from_str(text).unwrap()
}

fn map(text: &str) -> serde_json::Map<String, Value> {
    match json(text) {
        Value::Object(map) => map,
        _ => panic!("not an object"),
    }
}

#[test]
fn scalar_on_a_used_key_leaves_the_old_value() {
    let mut flattened = map(r#"{"key.0": "value1"}"#);
    let res = Flattener::new().flatten_value(
        &json(r#""Oopsy""#),
        "key.0".to_owned(),
        1,
        &mut flattened,
    );
    match res {
        Err(Error::KeyWillBeOverwritten(key)) => assert_eq!(key, "key.0"),
        _ => panic!("expected a collision"),
    }
    assert_eq!(flattened, map(r#"{"key.0": "value1"}"#));
}

#[test]
fn scalar_on_a_free_key_is_added() {
    for text in ["1", "-2.5", "true", "null", r#""""#, r#""12""#] {
        let mut flattened = map(r#"{"other": [1]}"#);
        let value = json(text);
        Flattener::new()
            .flatten_value(&value, "a.b".to_owned(), 1, &mut flattened)
            .unwrap();
        assert_eq!(flattened.len(), 2);
        assert_eq!(flattened["a.b"], value);
        assert_eq!(flattened["other"], json("[1]"));
    }
    let mut flattened = serde_json::Map::new();
    Flattener::new()
        .flatten_value(&json(r#""12""#), "k".to_owned(), u32::MAX, &mut flattened)
        .unwrap();
    assert!(flattened["k"].is_string());
}

#[test]
fn refused_root_leaves_the_map_as_it_was() {
    for text in ["3", r#""""#, "false", "null", "[1, 2, 3]", "[]"] {
        let mut flattened = map(r#"{"a": 1}"#);
        let res = Flattener::new()
            .set_preserve_empty_arrays(true)
            .flatten_value(&json(text), "k".to_owned(), 0, &mut flattened);
        assert!(matches!(res, Err(Error::FirstLevelMustBeAnObject)));
        assert_eq!(flattened, map(r#"{"a": 1}"#));
    }
}

#[test]
fn preserved_empty_container_is_added_on_a_free_key() {
    let flattener = Flattener::new()
        .set_preserve_empty_arrays(true)
        .set_preserve_empty_objects(true);
    let mut flattened = map(r#"{"x": 1}"#);
    flattener
        .flatten_value(&json("{}"), "a".to_owned(), 1, &mut flattened)
        .unwrap();
    flattener
        .flatten_value(&json("[]"), "b".to_owned(), 2, &mut flattened)
        .unwrap();
    assert_eq!(flattened, map(r#"{"x": 1, "a": {}, "b": []}"#));
}

#[test]
fn preserved_empty_container_on_a_used_key_writes_nothing() {
    let flattener = Flattener::new()
        .set_preserve_empty_arrays(true)
        .set_preserve_empty_objects(true);
    for text in ["{}", "[]"] {
        let mut flattened = map(r#"{"a": 1}"#);
        let res = flattener.flatten_value(&json(text), "a".to_owned(), 1, &mut flattened);
        match res {
            Err(Error::KeyWillBeOverwritten(key)) => assert_eq!(key, "a"),
            _ => panic!("expected a collision"),
        }
        assert_eq!(flattened, map(r#"{"a": 1}"#));
    }
}

#[test]
fn hollow_value_adds_nothing() {
    let mut flattened = map(r#"{"a": 1}"#);
    Flattener::new()
        .flatten_value(
            &json(r#"{"k": {}, "l": [[], {}, {"m": []}]}"#),
            "p".to_owned(),
            1,
            &mut flattened,
        )
        .unwrap();
    Flattener::new()
        .flatten_value(&json("[[], [{}]]"), "q".to_owned(), 1, &mut flattened)
        .unwrap();
    assert_eq!(flattened, map(r#"{"a": 1}"#));
}

#[test]
fn object_walk_stops_at_the_first_failing_entry() {
    let current = map(r#"{"a": 1, "b": 2, "c": 3, "d": {"e": 4}}"#);
    let mut flattened = map(r#"{"p.c": "old"}"#);
    let res = Flattener::new().flatten_object(&current, "p", 1, &mut flattened);
    match res {
        Err(Error::KeyWillBeOverwritten(key)) => assert_eq!(key, "p.c"),
        _ => panic!("expected a collision"),
    }
    assert_eq!(flattened, map(r#"{"p.c": "old", "p.a": 1, "p.b": 2}"#));
}

#[test]
fn object_walk_at_the_root_uses_bare_keys() {
    let current = map(r#"{"a": 1, "b": {"c": [2]}}"#);
    let mut flattened = serde_json::Map::new();
    Flattener::new()
        .flatten_object(&current, "ignored", 0, &mut flattened)
        .unwrap();
    assert_eq!(flattened, map(r#"{"a": 1, "b.c.0": 2}"#));
}

#[test]
fn two_failing_walks_agree() {
    let current = map(r#"{"a": [1, 2], "a.1": 3, "b": 4}"#);
    let flattener = Flattener::new();
    let mut first = map(r#"{"z": 0}"#);
    let mut second = map(r#"{"z": 0}"#);
    let one = flattener.flatten_object(&current, "", 0, &mut first);
    let two = flattener.flatten_object(&current, "", 0, &mut second);
    match (one, two) {
        (Err(Error::KeyWillBeOverwritten(k1)), Err(Error::KeyWillBeOverwritten(k2))) => {
            assert_eq!(k1, "a.1");
            assert_eq!(k2, "a.1");
        }
        _ => panic!("expected two collisions"),
    }
    assert_eq!(first, second);
    assert_eq!(first, map(r#"{"z": 0, "a.0": 1, "a.1": 2}"#));
}

#[test]
fn array_walk_stops_at_the_first_failing_item() {
    let items = vec![json(r#""x""#), json(r#""y""#), json(r#""z""#)];
    let mut flattened = map(r#"{"a.1": "old"}"#);
    let res = Flattener::new().flatten_array(&items, "a", 1, &mut flattened);
    match res {
        Err(Error::KeyWillBeOverwritten(key)) => assert_eq!(key, "a.1"),
        _ => panic!("expected a collision"),
    }
    assert_eq!(flattened, map(r#"{"a.1": "old", "a.0": "x"}"#));
}

#[test]
fn array_walk_at_depth_zero_uses_bare_positions() {
    let items = vec![json("1"), json(r#"{"k": 2}"#), json("[3]")];
    let surrounded = Flattener::new().set_array_formatting(ArrayFormatting::Surrounded {
        start: "[".to_string(),
        end: "]".to_string(),
    });
    let mut flattened = serde_json::Map::new();
    surrounded
        .flatten_array(&items, "ignored", 0, &mut flattened)
        .unwrap();
    assert_eq!(flattened, map(r#"{"0": 1, "1.k": 2, "2[0]": 3}"#));
}

#[test]
fn success_adds_one_entry_per_value_under_the_parent() {
    let current = json(r#"{"a": [1, {"b": null}, []], "c": {"d": {}, "e": "f"}}"#);
    let mut flattened = map(r#"{"x": 0, "y": 1}"#);
    Flattener::new()
        .flatten_value(&current, "root".to_owned(), 1, &mut flattened)
        .unwrap();
    assert_eq!(flattened.len(), 2 + 3);
    assert_eq!(
        flattened,
        map(r#"{"x": 0, "y": 1, "root.a.0": 1, "root.a.1.b": null, "root.c.e": "f"}"#)
    );
    for key in flattened.keys() {
        assert!(key == "x" || key == "y" || key.starts_with("root"));
    }
}
