use rtfmt::{Generator, Value};
use serde_json::Number;

#[test]
fn literal() {
    assert_eq!(
        "hello",
        &Generator::new("hello").unwrap().consume(&Value::Null).unwrap()
    );
}

#[test]
fn placeholder() {
    let mut map = serde_json::Map::new();
    map.insert("hello".into(), Value::Number(Number::from(42i64)));

    let value = Value::Object(map);

    assert_eq!(
        "42",
        &Generator::new("{hello}").unwrap().consume(&value).unwrap()
    );
}

#[test]
fn literal_squash() {
    let g = Generator::new("{{surrounded}}").unwrap();

    assert_eq!("{surrounded}", g.consume(&Value::Null).unwrap());
}

#[test]
fn literal_squash_beatle() {
    assert_eq!(
        "}{",
        &Generator::new("}}{{").unwrap().consume(&Value::Null).unwrap()
    );
}

#[test]
fn literal_with_placeholder() {
    let g = Generator::new("le message: {id}!").unwrap();

    let mut map = serde_json::Map::new();
    map.insert("id".into(), Value::Number(Number::from(42i64)));

    let value = Value::Object(map);

    assert_eq!("le message: 42!", g.consume(&value).unwrap());
}

#[test]
fn literal_with_nested_placeholder() {
    let g = Generator::new("le message: {key.nested}!").unwrap();

    let mut map = serde_json::Map::new();
    let mut key = serde_json::Map::new();
    key.insert("nested".into(), Value::Number(Number::from(42i64)));
    map.insert("key".into(), Value::Object(key));

    let value = Value::Object(map);

    assert_eq!("le message: 42!", g.consume(&value).unwrap());
}

#[test]
fn literal_with_nested_placeholder_with_array() {
    let g = Generator::new("le message: {0.1}!").unwrap();

    let mut nested = Vec::new();
    nested.push(Value::Number(Number::from(42i64)));
    nested.push(Value::String("value".into()));

    let mut array = Vec::new();
    array.push(Value::Array(nested));

    let value = Value::Array(array);

    assert_eq!("le message: \"value\"!", g.consume(&value).unwrap());
}
