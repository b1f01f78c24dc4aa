//! Re-parsing the output with the paired decoder and re-serializing at the
//! same depth budget must reproduce the bytes exactly: the output is valid
//! JSON and carries the full content, whatever the budget.

use depth_json::encode::encode;
use depth_json::value::JsonValue;
use depth_json::value::key_atom;

fn from_parsed(parsed: &serde_json::Value) -> JsonValue {
    match parsed {
        serde_json::Value::Null => JsonValue::null(),
        serde_json::Value::Bool(b) => JsonValue::boolean(*b),
        serde_json::Value::Number(n) => JsonValue::integer(n.as_i64().unwrap()),
        serde_json::Value::String(s) => JsonValue::string(s),
        serde_json::Value::Array(elems) => {
            JsonValue::Array(elems.iter().map(from_parsed).collect())
        }
        serde_json::Value::Object(entries) => JsonValue::Object(
            entries
                .iter()
                .map(|(k, v)| (key_atom(k), from_parsed(v)))
                .collect(),
        ),
    }
}

fn sample_tree() -> JsonValue {
    // Keys in sorted order, so the decoder's map preserves them as written.
    JsonValue::Object(vec![
        (
            key_atom("a"),
            JsonValue::Array(vec![
                JsonValue::integer(1),
                JsonValue::string("two\nlines"),
                JsonValue::Array(vec![]),
            ]),
        ),
        (
            key_atom("b"),
            JsonValue::Object(vec![
                (key_atom("c"), JsonValue::boolean(false)),
                (key_atom("d"), JsonValue::null()),
            ]),
        ),
    ])
}

#[test]
fn reencoding_the_parsed_output_is_byte_identical() {
    let v = sample_tree();
    for max_depth in [0usize, 1, 2, 3, 10] {
        let first = encode(&v, max_depth);
        let parsed: serde_json::Value = serde_json::from_slice(&first).unwrap();
        let rebuilt = from_parsed(&parsed);
        let second = encode(&rebuilt, max_depth);
        assert_eq!(first, second);
    }
}

#[test]
fn output_parses_to_the_same_value_at_every_depth() {
    let v = sample_tree();
    let reference: serde_json::Value = serde_json::from_slice(&encode(&v, 0)).unwrap();
    for max_depth in [1usize, 2, 3, 10] {
        let parsed: serde_json::Value = serde_json::from_slice(&encode(&v, max_depth)).unwrap();
        assert_eq!(parsed, reference);
    }
}
