use depth_json::formatter::DepthLimitedFormatter;

#[test]
fn event_sequence_builds_inline_object() {
    let mut fmt = DepthLimitedFormatter::new(0);
    let mut out: Vec<u8> = Vec::new();
    fmt.begin_object(&mut out);
    fmt.begin_object_key(&mut out, true);
    out.extend_from_slice(b"\"a\"");
    fmt.begin_object_value(&mut out);
    out.push(b'1');
    fmt.begin_object_key(&mut out, false);
    out.extend_from_slice(b"\"b\"");
    fmt.begin_object_value(&mut out);
    out.push(b'2');
    fmt.end_object(&mut out);
    assert_eq!(String::from_utf8(out).unwrap(), "{\"a\": 1, \"b\": 2}");
}

#[test]
fn event_sequence_builds_pretty_object() {
    let mut fmt = DepthLimitedFormatter::new(1);
    let mut out: Vec<u8> = Vec::new();
    fmt.begin_object(&mut out);
    fmt.begin_object_key(&mut out, true);
    out.extend_from_slice(b"\"a\"");
    fmt.begin_object_value(&mut out);
    out.push(b'1');
    fmt.end_object(&mut out);
    assert_eq!(String::from_utf8(out).unwrap(), "{\n  \"a\": 1\n}");
}

#[test]
fn array_value_separators_follow_the_level_layout() {
    let mut fmt = DepthLimitedFormatter::new(1);
    let mut out: Vec<u8> = Vec::new();
    fmt.begin_array(&mut out);
    fmt.begin_array_value(&mut out, true);
    out.push(b'1');
    fmt.begin_array_value(&mut out, false);
    out.push(b'2');
    fmt.end_array(&mut out);
    assert_eq!(String::from_utf8(out).unwrap(), "[\n  1,\n  2\n]");
}

#[test]
fn empty_container_closes_without_line_break() {
    let mut fmt = DepthLimitedFormatter::new(5);
    let mut out: Vec<u8> = Vec::new();
    fmt.begin_array(&mut out);
    fmt.end_array(&mut out);
    fmt.begin_object(&mut out);
    fmt.end_object(&mut out);
    assert_eq!(String::from_utf8(out).unwrap(), "[]{}");
}

#[test]
fn unmatched_leave_is_answered_defensively() {
    let mut fmt = DepthLimitedFormatter::new(3);
    let mut out: Vec<u8> = Vec::new();
    fmt.end_array(&mut out);
    assert_eq!(out, b"]".to_vec());
    assert_eq!(fmt.current_depth, 0);
    fmt.end_object(&mut out);
    assert_eq!(out, b"]}".to_vec());
    assert_eq!(fmt.current_depth, 0);
    // The formatter still works after the driver's violation.
    fmt.begin_array(&mut out);
    fmt.end_array(&mut out);
    assert_eq!(out, b"]}[]".to_vec());
}

#[test]
fn pretty_flag_is_decided_at_push_time() {
    let mut fmt = DepthLimitedFormatter::new(1);
    assert!(!fmt.current_is_pretty());
    fmt.push();
    assert!(fmt.current_is_pretty());
    fmt.push();
    assert!(!fmt.current_is_pretty());
    fmt.pop();
    assert!(fmt.current_is_pretty());
    let popped = fmt.pop();
    assert_eq!(popped, (true, false));
    assert!(!fmt.current_is_pretty());
}

#[test]
fn indent_writes_two_spaces_per_open_level() {
    let mut fmt = DepthLimitedFormatter::new(9);
    fmt.push();
    fmt.push();
    let mut out: Vec<u8> = Vec::new();
    fmt.indent(&mut out);
    assert_eq!(out, b"    ".to_vec());
}

#[test]
fn set_has_value_puts_the_close_on_its_own_line() {
    let mut fmt = DepthLimitedFormatter::new(1);
    let mut out: Vec<u8> = Vec::new();
    fmt.begin_array(&mut out);
    fmt.begin_array_value(&mut out, true);
    out.push(b'7');
    fmt.end_array(&mut out);
    assert_eq!(String::from_utf8(out).unwrap(), "[\n  7\n]");
}
