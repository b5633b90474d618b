use flatten_json_object::error::Error;
use flatten_json_object::ArrayFormatting;
use flatten_json_object::Flattener;
use serde_json::Value;

fn json(text: &str) -> Value {
    serde_json::from_str(text).unwrap()
}

#[test]
fn nested_single_key_value() {
    let obj = json(r#"{"key": "value", "nested_key": {"key": "value"}}"#);
    assert_eq!(
        Flattener::new().flatten(&obj).unwrap(),
        json(r#"{"key": "value", "nested_key.key": "value"}"#),
    );
}

#[test]
fn nested_multiple_key_value() {
    let obj = json(r#"{"key": "value", "nested_key": {"key1": "value1", "key2": "value2"}}"#);
    assert_eq!(
        Flattener::new().flatten(&obj).unwrap(),
        json(r#"{"key": "value", "nested_key.key1": "value1", "nested_key.key2": "value2"}"#),
    );
}

#[test]
fn complex_nested_struct() {
    let obj = json(
        r#"{
            "simple_key": "simple_value",
            "key": [
                "value1",
                {"key": "value2"},
                {"nested_array": [
                    "nested1",
                    "nested2",
                    ["nested3", "nested4"]
                ]}
            ]
        }"#,
    );
    assert_eq!(
        Flattener::new().flatten(&obj).unwrap(),
        json(
            r#"{"simple_key": "simple_value", "key.0": "value1", "key.1.key": "value2",
                "key.2.nested_array.0": "nested1", "key.2.nested_array.1": "nested2",
                "key.2.nested_array.2.0": "nested3", "key.2.nested_array.2.1": "nested4"}"#
        ),
    );
}

#[test]
fn overlapping_after_flattening_array() {
    let obj = json(r#"{"key": ["value1", "value2"], "key.0": "Oopsy"}"#);
    let res = Flattener::new().flatten(&obj);
    assert!(res.is_err());
    match res {
        Err(Error::KeyWillBeOverwritten(key)) => assert_eq!(key, "key.0"),
        Ok(_) => panic!("This should have failed"),
        _ => panic!("Wrong kind of error"),
    }
}

#[test]
fn empty_array() {
    let obj = json(r#"{"key": []}"#);
    assert_eq!(Flattener::new().flatten(&obj).unwrap(), json("{}"));
}

#[test]
fn empty_object() {
    let obj = json(r#"{"key": {}}"#);
    assert_eq!(Flattener::new().flatten(&obj).unwrap(), json("{}"));
}

#[test]
fn empty_complex_object() {
    let obj = json(r#"{"key": {"key2": {}, "key3": [[], {}, {"k": {}, "q": []}]}}"#);
    assert_eq!(Flattener::new().flatten(&obj).unwrap(), json("{}"));
}

#[test]
fn empty_array_preserved() {
    let obj = json(r#"{"key": [], "a": {}}"#);
    assert_eq!(
        Flattener::new()
            .set_preserve_empty_arrays(true)
            .flatten(&obj)
            .unwrap(),
        json(r#"{"key": []}"#)
    );
}

#[test]
fn empty_object_preserved() {
    let obj = json(r#"{"key": {}, "a": []}"#);
    assert_eq!(
        Flattener::new()
            .set_preserve_empty_objects(true)
            .flatten(&obj)
            .unwrap(),
        json(r#"{"key": {}}"#)
    );
}

#[test]
fn empty_objects_and_arrays_preserved() {
    let obj = json(
        r#"{
            "key": {
                "key2": {},
                "key3": [[], {}, {"k": {}, "q": []}]
            }
        }"#,
    );
    assert_eq!(
        Flattener::new()
            .set_preserve_empty_arrays(true)
            .set_preserve_empty_objects(true)
            .flatten(&obj)
            .unwrap(),
        json(
            r#"{
                "key.key2": {},
                "key.key3.0": [],
                "key.key3.1": {},
                "key.key3.2.k": {},
                "key.key3.2.q": []
            }"#
        )
    );
}

#[test]
fn nested_object_with_empty_array_and_string() {
    let obj = json(r#"{"key": {"key2": [], "key3": "a"}}"#);
    assert_eq!(
        Flattener::new().flatten(&obj).unwrap(),
        json(r#"{"key.key3": "a"}"#)
    );
}

#[test]
fn nested_object_with_empty_object_and_string() {
    let obj = json(r#"{"key": {"key2": {}, "key3": "a"}}"#);
    assert_eq!(
        Flattener::new().flatten(&obj).unwrap(),
        json(r#"{"key.key3": "a"}"#)
    );
}

#[test]
fn empty_string_as_key() {
    let obj = json(r#"{"key": {"": "a"}}"#);
    assert_eq!(
        Flattener::new().flatten(&obj).unwrap(),
        json(r#"{"key.": "a"}"#)
    );
}

#[test]
fn empty_string_as_key_multiple_times() {
    let obj = json(r#"{"key": {"": {"": {"": "a"}}}}"#);
    assert_eq!(
        Flattener::new().flatten(&obj).unwrap(),
        json(r#"{"key...": "a"}"#)
    );
}

#[test]
fn first_level_must_be_an_object() {
    let integer = json("3");
    let string = json(r#""""#);
    let boolean = json("false");
    let null = json("null");
    let array = json("[1, 2, 3]");

    for j in [integer, string, boolean, null, array] {
        let res = Flattener::new().flatten(&j);
        match res {
            Err(Error::FirstLevelMustBeAnObject) => return, // Good
            Ok(_) => panic!("This should have failed"),
            _ => panic!("Wrong kind of error"),
        }
    }
}

#[test]
fn complex_array() {
    let obj = json(r#"{"a": [1, [2, [3, 4], 5], 6]}"#);
    assert_eq!(
        Flattener::new().flatten(&obj).unwrap(),
        json(r#"{"a.0": 1, "a.2": 6, "a.1.0": 2, "a.1.1.0": 3, "a.1.1.1": 4, "a.1.2": 5}"#),
    );
}
