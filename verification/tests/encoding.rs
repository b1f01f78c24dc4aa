use depth_json::encode::encode;
use depth_json::value::JsonValue;
use depth_json::value::key_atom;

fn sample_tree() -> JsonValue {
    JsonValue::Object(vec![
        (
            key_atom("a"),
            JsonValue::Array(vec![JsonValue::integer(1), JsonValue::integer(2)]),
        ),
        (
            key_atom("b"),
            JsonValue::Object(vec![(key_atom("c"), JsonValue::integer(3))]),
        ),
    ])
}

#[test]
fn object_with_depth_one_pretty_outer_inline_inner() {
    let v = sample_tree();
    let out = encode(&v, 1);
    assert_eq!(
        String::from_utf8(out).unwrap(),
        "{\n  \"a\": [1, 2],\n  \"b\": {\"c\": 3}\n}"
    );
}

#[test]
fn object_with_depth_zero_single_line() {
    let v = sample_tree();
    let out = encode(&v, 0);
    assert_eq!(
        String::from_utf8(out).unwrap(),
        "{\"a\": [1, 2], \"b\": {\"c\": 3}}"
    );
    assert!(!encode(&v, 0).contains(&b'\n'));
}

#[test]
fn empty_array_compact_at_every_depth() {
    let v = JsonValue::Array(vec![]);
    for max_depth in [0usize, 1, 2, 7, 100] {
        assert_eq!(encode(&v, max_depth), b"[]".to_vec());
    }
}

#[test]
fn empty_object_compact_at_every_depth() {
    let v = JsonValue::Object(vec![]);
    for max_depth in [0usize, 1, 2, 7, 100] {
        assert_eq!(encode(&v, max_depth), b"{}".to_vec());
    }
}

#[test]
fn five_levels_with_depth_two_collapse_below_threshold() {
    let v = JsonValue::Array(vec![JsonValue::Array(vec![JsonValue::Array(vec![
        JsonValue::Array(vec![JsonValue::Array(vec![JsonValue::integer(1)])]),
    ])])]);
    let out = encode(&v, 2);
    assert_eq!(
        String::from_utf8(out).unwrap(),
        "[\n  [\n    [[[1]]]\n  ]\n]"
    );
}

#[test]
fn budget_deeper_than_tree_gives_fully_pretty_output() {
    let v = sample_tree();
    let expected = "{\n  \"a\": [\n    1,\n    2\n  ],\n  \"b\": {\n    \"c\": 3\n  }\n}";
    assert_eq!(String::from_utf8(encode(&v, 2)).unwrap(), expected);
    // The tree is two levels deep, so every larger budget renders the same.
    assert_eq!(encode(&v, 3), encode(&v, 2));
    assert_eq!(encode(&v, 100), encode(&v, 2));
}

fn strip_ws(bytes: &[u8]) -> Vec<u8> {
    bytes
        .iter()
        .copied()
        .filter(|b| !matches!(b, b' ' | b'\n' | b'\t' | b'\r'))
        .collect()
}

#[test]
fn content_is_depth_invariant() {
    let v = sample_tree();
    let inline = strip_ws(&encode(&v, 0));
    for max_depth in [1usize, 2, 3, 50] {
        assert_eq!(strip_ws(&encode(&v, max_depth)), inline);
    }
    assert_eq!(inline, b"{\"a\":[1,2],\"b\":{\"c\":3}}".to_vec());
}

#[test]
fn nested_empty_containers_inside_pretty_level() {
    let v = JsonValue::Array(vec![
        JsonValue::Array(vec![]),
        JsonValue::Object(vec![]),
    ]);
    assert_eq!(
        String::from_utf8(encode(&v, 9)).unwrap(),
        "[\n  [],\n  {}\n]"
    );
    assert_eq!(String::from_utf8(encode(&v, 0)).unwrap(), "[[], {}]");
}

#[test]
fn scalar_atoms_render_exactly() {
    let v = JsonValue::Array(vec![
        JsonValue::null(),
        JsonValue::boolean(true),
        JsonValue::boolean(false),
        JsonValue::integer(0),
        JsonValue::integer(-7),
    ]);
    assert_eq!(
        String::from_utf8(encode(&v, 0)).unwrap(),
        "[null, true, false, 0, -7]"
    );
}

#[test]
fn integer_decimal_rendering_covers_the_extremes() {
    assert_eq!(encode(&JsonValue::integer(i64::MAX), 0), b"9223372036854775807".to_vec());
    assert_eq!(
        encode(&JsonValue::integer(i64::MIN), 0),
        b"-9223372036854775808".to_vec()
    );
    assert_eq!(encode(&JsonValue::integer(10), 0), b"10".to_vec());
    assert_eq!(encode(&JsonValue::integer(-100), 0), b"-100".to_vec());
}

#[test]
fn strings_are_quoted_and_escaped() {
    assert_eq!(encode(&JsonValue::string("a\"b"), 0), b"\"a\\\"b\"".to_vec());
    assert_eq!(encode(&JsonValue::string("x\ny"), 0), b"\"x\\ny\"".to_vec());
    assert_eq!(
        encode(&JsonValue::string("back\\slash"), 0),
        b"\"back\\\\slash\"".to_vec()
    );
    assert_eq!(encode(&JsonValue::string(""), 0), b"\"\"".to_vec());
}

#[test]
fn escaped_strings_keep_the_output_single_line_at_depth_zero() {
    let v = JsonValue::Array(vec![
        JsonValue::string("line\nbreak"),
        JsonValue::string("tab\there"),
    ]);
    let out = encode(&v, 0);
    assert!(!out.contains(&b'\n'));
    assert_eq!(
        String::from_utf8(out).unwrap(),
        "[\"line\\nbreak\", \"tab\\there\"]"
    );
}

#[test]
fn key_atoms_are_quoted() {
    assert_eq!(key_atom("k"), b"\"k\"".to_vec());
    assert_eq!(key_atom("sp ace"), b"\"sp ace\"".to_vec());
}

#[test]
fn lone_scalar_renders_bare() {
    assert_eq!(encode(&JsonValue::integer(42), 3), b"42".to_vec());
    assert_eq!(encode(&JsonValue::string("s"), 3), b"\"s\"".to_vec());
}
