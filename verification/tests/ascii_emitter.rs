use fbx_writer::ascii::AsciiEmitter;
use fbx_writer::error::ErrorKind;
use fbx_writer::property::Property;

fn emitter_and_sink() -> (AsciiEmitter, String) {
    (AsciiEmitter::new(), String::new())
}

#[test]
fn header_of_7400() {
    let (mut em, mut out) = emitter_and_sink();
    em.emit_start_fbx(&mut out, 7400).unwrap();
    assert_eq!(out, "; FBX 7.4.0 project file\n");
}

#[test]
fn header_of_7302() {
    let (mut em, mut out) = emitter_and_sink();
    em.emit_start_fbx(&mut out, 7302).unwrap();
    assert_eq!(out, "; FBX 7.3.2 project file\n");
}

#[test]
fn version_window_bounds() {
    let (mut em, mut out) = emitter_and_sink();
    assert!(em.emit_start_fbx(&mut out, 6999).is_err());
    assert!(out.is_empty());
    assert!(em.emit_start_fbx(&mut out, 8000).is_err());
    assert!(out.is_empty());
    assert!(em.emit_start_fbx(&mut out, 7000).is_ok());
    let mut out2 = String::new();
    assert!(em.emit_start_fbx(&mut out2, 7999).is_ok());
}

#[test]
fn unsupported_version_error_carries_value() {
    let (mut em, mut out) = emitter_and_sink();
    let err = em.emit_start_fbx(&mut out, 6000).unwrap_err();
    assert_eq!(err.position(), 0);
    assert!(matches!(err.kind(), ErrorKind::UnsupportedFbxVersion(6000)));
}

#[test]
fn empty_node_renders_empty_braces() {
    let (mut em, mut out) = emitter_and_sink();
    em.emit_start_node(&mut out, "Objects", &[]).unwrap();
    em.emit_end_node(&mut out).unwrap();
    assert_eq!(out, "Objects:  {\n}\n");
}

#[test]
fn props_without_children_render_one_line() {
    let (mut em, mut out) = emitter_and_sink();
    let props = vec![Property::I32(42), Property::Text(String::from("x"))];
    em.emit_start_node(&mut out, "P", &props).unwrap();
    em.emit_end_node(&mut out).unwrap();
    assert_eq!(out, "P: 42, \"x\"\n");
}

#[test]
fn brace_appears_at_first_child() {
    let (mut em, mut out) = emitter_and_sink();
    em.emit_start_node(&mut out, "A", &[]).unwrap();
    em.emit_start_node(&mut out, "B", &[Property::I32(1)]).unwrap();
    em.emit_end_node(&mut out).unwrap();
    em.emit_end_node(&mut out).unwrap();
    assert_eq!(out, "A:  {\n\tB: 1\n}\n");
}

#[test]
fn second_child_writes_no_second_brace() {
    let (mut em, mut out) = emitter_and_sink();
    em.emit_start_node(&mut out, "A", &[]).unwrap();
    em.emit_start_node(&mut out, "B", &[Property::I32(1)]).unwrap();
    em.emit_end_node(&mut out).unwrap();
    em.emit_start_node(&mut out, "C", &[Property::I32(2)]).unwrap();
    em.emit_end_node(&mut out).unwrap();
    em.emit_end_node(&mut out).unwrap();
    assert_eq!(out, "A:  {\n\tB: 1\n\tC: 2\n}\n");
}

#[test]
fn parent_with_props_and_child_keeps_braces() {
    let (mut em, mut out) = emitter_and_sink();
    em.emit_start_node(&mut out, "A", &[Property::I16(7)]).unwrap();
    em.emit_start_node(&mut out, "B", &[]).unwrap();
    em.emit_end_node(&mut out).unwrap();
    em.emit_end_node(&mut out).unwrap();
    assert_eq!(out, "A: 7 {\n\tB:  {\n\t}\n}\n");
}

#[test]
fn bool_scalars_render_y_and_t() {
    let (mut em, mut out) = emitter_and_sink();
    let props = vec![Property::Bool(true), Property::Bool(false)];
    em.emit_start_node(&mut out, "B", &props).unwrap();
    em.emit_end_node(&mut out).unwrap();
    assert_eq!(out, "B: Y, T\n");
}

#[test]
fn bool_array_renders_y_t_tokens() {
    let (mut em, mut out) = emitter_and_sink();
    let props = vec![Property::VecBool(vec![true, false, true])];
    em.emit_start_node(&mut out, "F", &props).unwrap();
    em.emit_end_node(&mut out).unwrap();
    assert_eq!(out, "F: *3 {\n\ta: Y,T,Y\n}\n");
}

#[test]
fn integer_scalars_render_decimal() {
    let (mut em, mut out) = emitter_and_sink();
    let props = vec![
        Property::I16(-5),
        Property::I32(0),
        Property::I64(i64::MIN),
        Property::I64(i64::MAX),
    ];
    em.emit_start_node(&mut out, "N", &props).unwrap();
    em.emit_end_node(&mut out).unwrap();
    assert_eq!(out, "N: -5, 0, -9223372036854775808, 9223372036854775807\n");
}

#[test]
fn int_array_renders_comma_joined() {
    let (mut em, mut out) = emitter_and_sink();
    let props = vec![Property::VecI32(vec![1, -2, 3])];
    em.emit_start_node(&mut out, "V", &props).unwrap();
    em.emit_end_node(&mut out).unwrap();
    assert_eq!(out, "V: *3 {\n\ta: 1,-2,3\n}\n");
}

#[test]
fn i64_array_renders_comma_joined() {
    let (mut em, mut out) = emitter_and_sink();
    let props = vec![Property::VecI64(vec![9007199254740993, -1])];
    em.emit_start_node(&mut out, "V", &props).unwrap();
    em.emit_end_node(&mut out).unwrap();
    assert_eq!(out, "V: *2 {\n\ta: 9007199254740993,-1\n}\n");
}

#[test]
fn nested_array_indents_one_level_deeper() {
    let (mut em, mut out) = emitter_and_sink();
    em.emit_start_node(&mut out, "A", &[]).unwrap();
    em.emit_start_node(&mut out, "B", &[Property::VecI32(vec![7])]).unwrap();
    em.emit_end_node(&mut out).unwrap();
    em.emit_end_node(&mut out).unwrap();
    assert_eq!(out, "A:  {\n\tB: *1 {\n\t\ta: 7\n\t}\n}\n");
}

#[test]
fn empty_array_renders_star_zero() {
    let (mut em, mut out) = emitter_and_sink();
    em.emit_start_node(&mut out, "E", &[Property::VecI64(vec![])]).unwrap();
    em.emit_end_node(&mut out).unwrap();
    assert_eq!(out, "E: *0 {\n\ta: \n}\n");
}

#[test]
fn float_text_passes_through_verbatim() {
    let (mut em, mut out) = emitter_and_sink();
    let props = vec![
        Property::F32(String::from("1.5")),
        Property::F64(String::from("-2.25")),
    ];
    em.emit_start_node(&mut out, "V", &props).unwrap();
    em.emit_end_node(&mut out).unwrap();
    assert_eq!(out, "V: 1.5, -2.25\n");
}

#[test]
fn float_array_passes_through_verbatim() {
    let (mut em, mut out) = emitter_and_sink();
    let props = vec![Property::VecF64(vec![String::from("0.5"), String::from("10")])];
    em.emit_start_node(&mut out, "V", &props).unwrap();
    em.emit_end_node(&mut out).unwrap();
    assert_eq!(out, "V: *2 {\n\ta: 0.5,10\n}\n");
}

#[test]
fn string_escaping_replaces_exactly_three_characters() {
    let (mut em, mut out) = emitter_and_sink();
    let props = vec![Property::Text(String::from("a\"b\nc\rd"))];
    em.emit_start_node(&mut out, "S", &props).unwrap();
    em.emit_end_node(&mut out).unwrap();
    assert_eq!(out, "S: \"a&quot;b&lf;c&cr;d\"\n");
}

#[test]
fn string_without_special_characters_is_unaltered() {
    let (mut em, mut out) = emitter_and_sink();
    let props = vec![Property::Text(String::from("café ∆ tab\there"))];
    em.emit_start_node(&mut out, "S", &props).unwrap();
    em.emit_end_node(&mut out).unwrap();
    assert_eq!(out, "S: \"café ∆ tab\there\"\n");
}

#[test]
fn binary_renders_quoted_base64() {
    let (mut em, mut out) = emitter_and_sink();
    let props = vec![Property::Binary(b"hello".to_vec())];
    em.emit_start_node(&mut out, "B", &props).unwrap();
    em.emit_end_node(&mut out).unwrap();
    assert_eq!(out, "B: \"aGVsbG8=\"\n");
}

#[test]
fn base64_padding_shapes() {
    for (bytes, expected) in [
        (&b""[..], "B: \"\"\n"),
        (&b"M"[..], "B: \"TQ==\"\n"),
        (&b"Ma"[..], "B: \"TWE=\"\n"),
        (&b"Man"[..], "B: \"TWFu\"\n"),
    ] {
        let mut em = AsciiEmitter::new();
        let mut out = String::new();
        let props = vec![Property::Binary(bytes.to_vec())];
        em.emit_start_node(&mut out, "B", &props).unwrap();
        em.emit_end_node(&mut out).unwrap();
        assert_eq!(out, expected);
    }
}

#[test]
fn comment_lines_are_indented_to_depth() {
    let (mut em, mut out) = emitter_and_sink();
    em.emit_comment(&mut out, "first\r\nsecond\nthird").unwrap();
    assert_eq!(out, "first\nsecond\nthird\n");
}

#[test]
fn comment_inside_node_indents_and_keeps_state() {
    let (mut em, mut out) = emitter_and_sink();
    em.emit_start_node(&mut out, "A", &[]).unwrap();
    em.emit_comment(&mut out, "hi").unwrap();
    em.emit_start_node(&mut out, "B", &[]).unwrap();
    em.emit_end_node(&mut out).unwrap();
    em.emit_end_node(&mut out).unwrap();
    assert_eq!(out, "A: \thi\n {\n\tB:  {\n\t}\n}\n");

    let mut em2 = AsciiEmitter::new();
    let mut plain = String::new();
    em2.emit_start_node(&mut plain, "A", &[]).unwrap();
    em2.emit_start_node(&mut plain, "B", &[]).unwrap();
    em2.emit_end_node(&mut plain).unwrap();
    em2.emit_end_node(&mut plain).unwrap();
    assert_eq!(plain, "A:  {\n\tB:  {\n\t}\n}\n");
}

#[test]
fn empty_comment_writes_nothing() {
    let (mut em, mut out) = emitter_and_sink();
    em.emit_comment(&mut out, "").unwrap();
    assert_eq!(out, "");
}

#[test]
fn comment_trailing_carriage_return_is_kept() {
    let (mut em, mut out) = emitter_and_sink();
    em.emit_comment(&mut out, "x\r").unwrap();
    assert_eq!(out, "x\r\n");
}

#[test]
fn end_without_open_node_fails() {
    let (mut em, mut out) = emitter_and_sink();
    let err = em.emit_end_node(&mut out).unwrap_err();
    assert_eq!(err.position(), 0);
    assert!(matches!(err.kind(), ErrorKind::DataError(_)));
    assert_eq!(out, "");
}

#[test]
fn extra_end_after_balanced_document_fails() {
    let (mut em, mut out) = emitter_and_sink();
    em.emit_start_fbx(&mut out, 7400).unwrap();
    em.emit_start_node(&mut out, "A", &[]).unwrap();
    em.emit_start_node(&mut out, "B", &[]).unwrap();
    em.emit_end_node(&mut out).unwrap();
    em.emit_end_node(&mut out).unwrap();
    em.emit_end_fbx(&mut out).unwrap();
    assert!(em.emit_end_node(&mut out).is_err());
}

#[test]
fn empty_node_name_fails() {
    let (mut em, mut out) = emitter_and_sink();
    let err = em.emit_start_node(&mut out, "", &[]).unwrap_err();
    assert!(matches!(err.kind(), ErrorKind::DataError(_)));
    assert_eq!(out, "");
}

#[test]
fn end_fbx_writes_nothing() {
    let (mut em, mut out) = emitter_and_sink();
    em.emit_start_fbx(&mut out, 7100).unwrap();
    let before = out.clone();
    em.emit_end_fbx(&mut out).unwrap();
    assert_eq!(out, before);
}
