use rtfmt::render::{element, find, follow, push_serialized, render};
use rtfmt::{Generator, Key, RenderError, Token, Value};
use serde_json::Number;

fn num(n: i64) -> Value {
    Value::Number(Number::from(n))
}

fn string(s: &str) -> Value {
    Value::String(s.to_string())
}

fn object(entries: Vec<(&str, Value)>) -> Value {
    let mut map = serde_json::Map::new();
    for (k, v) in entries {
        map.insert(k.to_string(), v);
    }
    Value::Object(map)
}

fn rendering(pattern: &str, value: &Value) -> String {
    Generator::new(pattern).unwrap().consume(value).unwrap()
}

fn missing(pattern: &str, value: &Value) -> String {
    match Generator::new(pattern).unwrap().consume(value) {
        Err(RenderError::KeyNotFound(path)) => path,
        Err(RenderError::Serialization(e)) => panic!("serializer failed: {:?}", e),
        Ok(out) => panic!("rendered {:?}", out),
    }
}

#[test]
fn plain_pattern_renders_unchanged() {
    let pattern = "nothing to see: here \u{e9}!";
    assert_eq!(pattern, rendering(pattern, &Value::Null));
    assert_eq!(pattern, rendering(pattern, &num(1)));
    assert_eq!(pattern, rendering(pattern, &Value::Array(vec![num(1)])));
    assert_eq!(pattern, rendering(pattern, &object(vec![("a", num(1))])));
}

#[test]
fn empty_pattern_renders_empty() {
    assert_eq!("", rendering("", &Value::Null));
}

#[test]
fn escapes_render_as_single_braces() {
    assert_eq!("{", rendering("{{", &Value::Null));
    assert_eq!("}", rendering("}}", &Value::Null));
    assert_eq!("}{", rendering("}}{{", &Value::Null));
    assert_eq!("{a}", rendering("{{a}}", &object(vec![("a", num(1))])));
}

#[test]
fn nested_names_resolve() {
    let value = object(vec![("a", object(vec![("b", num(42))]))]);
    assert_eq!("42", rendering("{a.b}", &value));
}

#[test]
fn nested_positions_resolve() {
    let value = Value::Array(vec![Value::Array(vec![num(42), string("value")])]);
    assert_eq!("\"value\"", rendering("{0.1}", &value));
    assert_eq!("42", rendering("{0.0}", &value));
}

#[test]
fn names_and_positions_mix() {
    let value = object(vec![(
        "rows",
        Value::Array(vec![object(vec![("id", num(7))]), object(vec![("id", num(8))])]),
    )]);
    assert_eq!("7 and 8", rendering("{rows.0.id} and {rows.1.id}", &value));
}

#[test]
fn leaf_is_written_as_json() {
    let value = object(vec![
        ("n", Value::Null),
        ("t", Value::Bool(true)),
        ("f", Value::Number(Number::from_f64(1.5).unwrap())),
        ("u", Value::Number(Number::from(18446744073709551615u64))),
        ("m", num(-3)),
        ("s", string("a\"b\\c\n")),
        ("l", Value::Array(vec![num(1), string("x"), Value::Null])),
        ("o", object(vec![("k", Value::Array(vec![]))])),
    ]);
    assert_eq!("null", rendering("{n}", &value));
    assert_eq!("true", rendering("{t}", &value));
    assert_eq!("1.5", rendering("{f}", &value));
    assert_eq!("18446744073709551615", rendering("{u}", &value));
    assert_eq!("-3", rendering("{m}", &value));
    assert_eq!("\"a\\\"b\\\\c\\n\"", rendering("{s}", &value));
    assert_eq!("[1,\"x\",null]", rendering("{l}", &value));
    assert_eq!("{\"k\":[]}", rendering("{o}", &value));
}

#[test]
fn placeholder_equals_serializer_output() {
    let leaf = object(vec![("x", Value::Array(vec![num(1), string("two")]))]);
    let value = object(vec![("a", Value::Array(vec![Value::Null, leaf.clone()]))]);
    let expected = format!("<{}>", serde_json::to_string(&leaf).unwrap());
    assert_eq!(expected, rendering("<{a.1}>", &value));
}

#[test]
fn missing_key_names_the_placeholder() {
    assert_eq!("missing", missing("{missing}", &object(vec![])));
}

#[test]
fn missing_key_reports_the_whole_path() {
    let value = object(vec![("a", object(vec![("b", num(1))]))]);
    assert_eq!("a.c", missing("{a.c}", &value));
    assert_eq!("a.b.c", missing("{a.b.c}", &value));
    assert_eq!("x.b", missing("{x.b}", &value));
}

#[test]
fn position_out_of_bounds_is_missing() {
    let value = Value::Array(vec![num(1), num(2)]);
    assert_eq!("2", rendering("{1}", &value));
    assert_eq!("2", missing("{2}", &value));
    assert_eq!("0", missing("{0}", &Value::Array(vec![])));
}

#[test]
fn position_against_mapping_is_missing() {
    let value = object(vec![("0", num(1))]);
    assert_eq!("0", missing("{0}", &value));
}

#[test]
fn name_against_list_is_missing() {
    let value = Value::Array(vec![num(1)]);
    assert_eq!("a", missing("{a}", &value));
}

#[test]
fn key_against_scalar_is_missing() {
    assert_eq!("a", missing("{a}", &Value::Null));
    assert_eq!("0", missing("{0}", &string("abc")));
    assert_eq!("a.b", missing("{a.b}", &object(vec![("a", num(1))])));
}

#[test]
fn failure_gives_no_partial_output() {
    let value = object(vec![("a", num(1))]);
    let g = Generator::new("x{a}y{b}z{a}").unwrap();
    assert!(matches!(g.consume(&value), Err(RenderError::KeyNotFound(path)) if path == "b"));
}

#[test]
fn first_failure_is_reported() {
    assert_eq!("b", missing("{b}{c}", &object(vec![])));
    assert_eq!("c", missing("{c}{b}", &object(vec![])));
}

#[test]
fn rendering_twice_gives_the_same_text() {
    let value = object(vec![("a", Value::Array(vec![num(1), num(2)]))]);
    let g = Generator::new("{a} then {a.1}").unwrap();
    let first = g.consume(&value).unwrap();
    let second = g.consume(&value).unwrap();
    assert_eq!("[1,2] then 2", first);
    assert_eq!(first, second);
}

#[test]
fn generator_is_reusable_across_values() {
    let g = Generator::new("id={id}").unwrap();
    assert_eq!("id=1", g.consume(&object(vec![("id", num(1))])).unwrap());
    assert_eq!("id=\"x\"", g.consume(&object(vec![("id", string("x"))])).unwrap());
    assert!(matches!(
        g.consume(&Value::Null),
        Err(RenderError::KeyNotFound(path)) if path == "id"
    ));
    assert_eq!("id=2", g.consume(&object(vec![("id", num(2))])).unwrap());
}

#[test]
fn find_takes_one_step() {
    let inner = Value::Array(vec![num(5), num(6)]);
    let value = object(vec![("a", inner.clone())]);
    assert_eq!(Some(&inner), find(&value, &Key::Name("a".to_string())));
    assert_eq!(None, find(&value, &Key::Name("b".to_string())));
    assert_eq!(None, find(&value, &Key::Id(0)));
    assert_eq!(Some(&num(6)), find(&inner, &Key::Id(1)));
    assert_eq!(None, find(&inner, &Key::Id(2)));
    assert_eq!(None, find(&inner, &Key::Name("1".to_string())));
    assert_eq!(None, find(&num(1), &Key::Id(0)));
}

#[test]
fn follow_walks_the_path() {
    let value = object(vec![("a", Value::Array(vec![num(5), object(vec![("b", string("c"))])]))]);
    let path = vec![Key::Name("a".to_string()), Key::Id(1), Key::Name("b".to_string())];
    assert_eq!(Some(&string("c")), follow(&value, &path));
    assert_eq!(Some(&value), follow(&value, &vec![]));
    let wrong = vec![Key::Name("a".to_string()), Key::Id(2)];
    assert_eq!(None, follow(&value, &wrong));
    let deeper = vec![Key::Name("a".to_string()), Key::Id(0), Key::Id(0)];
    assert_eq!(None, follow(&value, &deeper));
}

#[test]
fn push_serialized_appends_or_fails() {
    let mut out = String::from("ab");
    assert!(push_serialized(&mut out, Ok("cd".to_string())).is_ok());
    assert_eq!("abcd", out);
    let cause = serde_json::from_str::<Value>("{").unwrap_err();
    let shown = format!("{:?}", cause);
    match push_serialized(&mut out, Err(cause)) {
        Err(RenderError::Serialization(e)) => assert_eq!(shown, format!("{:?}", e)),
        other => panic!("unexpected: {:?}", other),
    }
    assert_eq!("abcd", out);
}

#[test]
fn serializer_error_converts() {
    let cause = serde_json::from_str::<Value>("[1,").unwrap_err();
    let shown = cause.to_string();
    match RenderError::from(cause) {
        RenderError::Serialization(e) => assert_eq!(shown, e.to_string()),
        RenderError::KeyNotFound(path) => panic!("unexpected: {:?}", path),
    }
}

#[test]
fn render_walks_given_tokens() {
    let tokens = vec![
        Token::Literal("<".to_string()),
        Token::Placeholder("anything".to_string(), vec![Key::Id(1)]),
        Token::Placeholder("whole".to_string(), vec![]),
        Token::Literal(">".to_string()),
    ];
    let value = Value::Array(vec![num(1), num(2)]);
    assert_eq!("<2[1,2]>", render(&tokens, &value).unwrap());
    assert!(matches!(
        render(&tokens, &Value::Null),
        Err(RenderError::KeyNotFound(path)) if path == "anything"
    ));
    assert_eq!("", render(&vec![], &Value::Null).unwrap());
}

#[test]
fn element_picks_by_position() {
    let items = vec![num(5), string("six")];
    assert_eq!(Some(&num(5)), element(Some(&items), 0));
    assert_eq!(Some(&string("six")), element(Some(&items), 1));
    assert_eq!(None, element(Some(&items), 2));
    assert_eq!(None, element(Some(&items), usize::MAX));
    assert_eq!(None, element(None, 0));
    assert_eq!(None, element(Some(&vec![]), 0));
}
