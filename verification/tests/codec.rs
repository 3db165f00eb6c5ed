use web_log_backend::codec::{
    decode, encode, ContentType, DecodeError, DecodeErrorKind, EncodeError,
};
use web_log_backend::schema::{FieldDescriptor, FieldKind, Message, MessageShape, Value};

fn person() -> MessageShape {
    MessageShape::new(
        "test.Person",
        vec![
            FieldDescriptor::new("name", FieldKind::Text),
            FieldDescriptor::new("age", FieldKind::Integer),
            FieldDescriptor::new("admin", FieldKind::Boolean),
        ],
    )
}

fn ada() -> Message {
    Message::new(vec![Value::text("Ada"), Value::Integer(36), Value::Boolean(true)])
}

fn json(body: &str) -> Result<Message, DecodeError> {
    decode(ContentType::Json, body.as_bytes(), &person())
}

fn json_error(body: &str) -> (DecodeErrorKind, Option<String>) {
    let error = json(body).unwrap_err();
    (error.kind, error.field)
}

fn at(kind: DecodeErrorKind, field: &str) -> (DecodeErrorKind, Option<String>) {
    (kind, Some(field.to_string()))
}

#[test]
fn content_types_are_recognized_by_their_exact_names() {
    for value in [
        "application/json",
        "application/json; charset=utf-8",
        "application/json;charset=utf-8;x=application/proto",
        "Application/JSON",
        "  application/json\t",
        "\u{a0}APPLICATION/Json\u{3000} ; q=1",
        "application/json;",
    ] {
        assert_eq!(ContentType::parse(value), Some(ContentType::Json), "{:?}", value);
    }
    for value in [
        "application/proto",
        "application/PROTO ; charset=utf-8",
        " Application/Proto",
        "application/proto;application/json",
    ] {
        assert_eq!(ContentType::parse(value), Some(ContentType::Proto), "{:?}", value);
    }
    for value in [
        "",
        " ",
        ";",
        ";application/json",
        "text/plain",
        "application/jso",
        "application/jsonx",
        "application/ json",
        "application /json",
        "application/json charset=utf-8",
        "application/json,application/proto",
        "application/connect+json",
        "applicatıon/json",
        "application/\u{212a}son",
        "x application/json",
    ] {
        assert_eq!(ContentType::parse(value), None, "{:?}", value);
    }
    assert_eq!(ContentType::Json.mime(), "application/json");
    assert_eq!(ContentType::Proto.mime(), "application/proto");
}

#[test]
fn json_is_written_in_the_order_of_the_shape() {
    let body = encode(ContentType::Json, &person(), &ada()).unwrap();
    assert_eq!(String::from_utf8(body).unwrap(), r#"{"name":"Ada","age":36,"admin":true}"#);
}

#[test]
fn json_of_an_empty_shape_is_an_empty_object() {
    let shape = MessageShape::new("Empty", vec![]);
    let body = encode(ContentType::Json, &shape, &Message::new(vec![])).unwrap();
    assert_eq!(body, b"{}".to_vec());
    assert_eq!(decode(ContentType::Json, b" { } ", &shape), Ok(Message::new(vec![])));
    assert_eq!(decode(ContentType::Json, b"{\"x\":[1,2]}", &shape), Ok(Message::new(vec![])));
}

#[test]
fn json_escapes_what_must_be_escaped() {
    let shape = MessageShape::new("T", vec![FieldDescriptor::new("t", FieldKind::Text)]);
    let text = "a\"b\\c\n\r\t\u{8}\u{c}\u{1}\u{1f}/\u{7f}é😀";
    let body = encode(ContentType::Json, &shape, &Message::new(vec![Value::text(text)])).unwrap();
    assert_eq!(
        String::from_utf8(body.clone()).unwrap(),
        "{\"t\":\"a\\\"b\\\\c\\n\\r\\t\\b\\f\\u0001\\u001f/\u{7f}é😀\"}"
    );
    assert_eq!(
        decode(ContentType::Json, &body, &shape),
        Ok(Message::new(vec![Value::text(text)]))
    );
}

#[test]
fn json_integers_are_written_in_decimal() {
    let shape = MessageShape::new("N", vec![FieldDescriptor::new("n", FieldKind::Integer)]);
    for (value, text) in [
        (0i64, "0"),
        (7, "7"),
        (10, "10"),
        (-1, "-1"),
        (1234567890, "1234567890"),
        (i64::MAX, "9223372036854775807"),
        (i64::MIN, "-9223372036854775808"),
    ] {
        let message = Message::new(vec![Value::Integer(value)]);
        let body = encode(ContentType::Json, &shape, &message).unwrap();
        assert_eq!(String::from_utf8(body.clone()).unwrap(), format!("{{\"n\":{}}}", text));
        assert_eq!(decode(ContentType::Json, &body, &shape), Ok(message));
    }
}

#[test]
fn json_round_trip_gives_the_message_back() {
    for message in [
        ada(),
        Message::new(vec![Value::text(""), Value::Integer(-5), Value::Boolean(false)]),
        Message::new(vec![Value::text("{\"name\":1}"), Value::Integer(0), Value::Boolean(true)]),
    ] {
        let body = encode(ContentType::Json, &person(), &message).unwrap();
        assert_eq!(decode(ContentType::Json, &body, &person()), Ok(message));
    }
}

#[test]
fn json_members_may_come_in_any_order_with_white_space() {
    let body = " \t\r\n{ \"admin\" : false ,\n \"age\":\t-12 , \"name\" : \"Bob\" } \n";
    assert_eq!(
        json(body),
        Ok(Message::new(vec![Value::text("Bob"), Value::Integer(-12), Value::Boolean(false)]))
    );
}

#[test]
fn json_members_that_the_shape_does_not_know_are_ignored() {
    let body = r#"{"extra":{"a":[1,2.5e-3,{"b":null}],"c":"}"},"name":"Ada","list":[],
        "age":36,"flag":false,"num":-0.5E+2,"admin":true,"s":"\u00e9\"","o":{}}"#;
    assert_eq!(json(body), Ok(ada()));
}

#[test]
fn json_field_that_occurs_again_is_refused() {
    let body = r#"{"name":"Eve","age":1,"admin":false,"name":"Ada"}"#;
    assert_eq!(json_error(body), at(DecodeErrorKind::Malformed, "name"));
    let body = r#"{"name":"Ada","age":36,"admin":true,"admin":true}"#;
    assert_eq!(json_error(body), at(DecodeErrorKind::Malformed, "admin"));
    let body = r#"{"age":36,"age" 1}"#;
    assert_eq!(json_error(body), at(DecodeErrorKind::Malformed, "age"));
    let body = r#"{"age":36,"age""#;
    assert_eq!(json_error(body), at(DecodeErrorKind::Malformed, "age"));
    let unknown = r#"{"x":1,"name":"Ada","x":[2],"age":36,"x":"3","admin":true}"#;
    assert_eq!(json(unknown), Ok(ada()));
}

#[test]
fn json_member_names_must_be_well_formed_utf8() {
    let body = b"{\"\xff\":1,\"name\":\"Ada\",\"age\":36,\"admin\":true}";
    let error = decode(ContentType::Json, body, &person()).unwrap_err();
    assert_eq!(error, DecodeError { kind: DecodeErrorKind::Malformed, field: None });
    let body = b"{\"name\":\"Ada\",\"age\":36,\"admin\":true,\"na\xc3\":1}";
    let error = decode(ContentType::Json, body, &person()).unwrap_err();
    assert_eq!(error, DecodeError { kind: DecodeErrorKind::Malformed, field: None });
    let body = b"{\"\xed\xa0\x80\" 1}";
    let error = decode(ContentType::Json, body, &person()).unwrap_err();
    assert_eq!(error, DecodeError { kind: DecodeErrorKind::Malformed, field: None });
    let body = "{\"é\":1,\"name\":\"Ada\",\"age\":36,\"admin\":true}";
    assert_eq!(json(body), Ok(ada()));
}

#[test]
fn json_escapes_are_read() {
    let shape = MessageShape::new("T", vec![FieldDescriptor::new("t", FieldKind::Text)]);
    let body = br#"{"t":"\"\\\/\b\f\n\r\t\u0041\u00e9\u20AC\ud83d\ude00"}"#;
    assert_eq!(
        decode(ContentType::Json, body, &shape),
        Ok(Message::new(vec![Value::text("\"\\/\u{8}\u{c}\n\r\tAé€😀")]))
    );
    let key = br#"{"\u0074":"x"}"#;
    assert_eq!(decode(ContentType::Json, key, &shape), Ok(Message::new(vec![Value::text("x")])));
}

#[test]
fn json_field_names_may_be_any_text() {
    let shape = MessageShape::new("T", vec![FieldDescriptor::new("é \"n\"", FieldKind::Integer)]);
    let message = Message::new(vec![Value::Integer(3)]);
    let body = encode(ContentType::Json, &shape, &message).unwrap();
    assert_eq!(String::from_utf8(body.clone()).unwrap(), "{\"é \\\"n\\\"\":3}");
    assert_eq!(decode(ContentType::Json, &body, &shape), Ok(message));
}

#[test]
fn json_truncated_bodies_are_rejected() {
    for body in [
        "",
        "  ",
        "{",
        "{ ",
        "{\"name",
        "{\"name\"",
        "{\"name\":",
        "{\"name\":\"Ad",
        "{\"name\":\"Ada\\",
        "{\"name\":\"Ada\\u00",
        "{\"name\":\"Ada\\ud83d\\ude0",
        "{\"name\":\"Ada\"",
        "{\"name\":\"Ada\",",
        "{\"name\":\"Ada\",\"age\":36,\"admin\":true",
        "{\"x\":[1,2",
        "{\"x\":{\"a\":1",
        "{\"x\":1.",
        "{\"x\":1e",
        "{\"x\":-",
    ] {
        assert_eq!(json_error(body).0, DecodeErrorKind::Truncated, "{}", body);
    }
    assert_eq!(json_error("{\"age\":-"), at(DecodeErrorKind::Truncated, "age"));
    assert_eq!(json_error("{\"admin\":tru"), at(DecodeErrorKind::Truncated, "admin"));
    assert_eq!(json_error("{\"name\":\"Ad"), at(DecodeErrorKind::Truncated, "name"));
}

#[test]
fn json_malformed_bodies_are_rejected() {
    for body in [
        "}",
        "@",
        "{,}",
        "{name:\"Ada\"}",
        "{\"name\" \"Ada\"}",
        "{\"name\":\"Ada\";}",
        "{\"name\":\"Ada\",}",
        "{\"name\":\"A\nda\"}",
        "{\"name\":\"A\\qda\"}",
        "{\"name\":\"\\u12G4\"}",
        "{\"name\":\"\\ud83dx\\ude00\"}",
        "{\"name\":\"\\ud83d\\u0041\"}",
        "{\"name\":\"\\ude00\"}",
        "{\"age\":01}",
        "{\"age\":-x}",
        "{\"admin\":trux}",
        "{\"x\":tru }",
        "{\"x\":nul}",
        "{\"x\":[1 2]}",
        "{\"x\":[1,]}",
        "{\"x\":{\"a\" 1}}",
        "{\"x\":1.e5}",
        "{\"x\":1e+}",
        "{\"x\":00}",
        "{\"x\":+1}",
        "{\"name\":\"Ada\",\"age\":36,\"admin\":true} x",
        "{\"name\":\"Ada\",\"age\":36,\"admin\":true}{}",
        "{} {}",
    ] {
        assert_eq!(json_error(body).0, DecodeErrorKind::Malformed, "{}", body);
    }
    assert_eq!(json_error("{\"age\":01}"), at(DecodeErrorKind::Malformed, "age"));
    assert_eq!(json_error("{\"name\":@}"), at(DecodeErrorKind::Malformed, "name"));
    assert_eq!(json_error("{\"x\":@}"), (DecodeErrorKind::Malformed, None));
}

#[test]
fn json_text_must_be_well_formed_utf8() {
    let shape = MessageShape::new("T", vec![FieldDescriptor::new("t", FieldKind::Text)]);
    let error = decode(ContentType::Json, b"{\"t\":\"\xff\"}", &shape).unwrap_err();
    assert_eq!(error, DecodeError { kind: DecodeErrorKind::Malformed, field: Some("t".to_string()) });
    let error = decode(ContentType::Json, b"{\"t\":\"\xc3\"}", &shape).unwrap_err();
    assert_eq!(error.kind, DecodeErrorKind::Malformed);
    let valid = decode(ContentType::Json, b"{\"t\":\"\xc3\xa9\"}", &shape).unwrap();
    assert_eq!(valid, Message::new(vec![Value::text("é")]));
}

#[test]
fn json_values_of_another_type_are_mismatches() {
    assert_eq!(json_error("{\"name\": 123}"), at(DecodeErrorKind::TypeMismatch, "name"));
    assert_eq!(json_error("{\"name\":true}"), at(DecodeErrorKind::TypeMismatch, "name"));
    assert_eq!(json_error("{\"name\":null}"), at(DecodeErrorKind::TypeMismatch, "name"));
    assert_eq!(json_error("{\"name\":{}}"), at(DecodeErrorKind::TypeMismatch, "name"));
    assert_eq!(json_error("{\"name\":[\"Ada\"]}"), at(DecodeErrorKind::TypeMismatch, "name"));
    assert_eq!(json_error("{\"age\":\"36\"}"), at(DecodeErrorKind::TypeMismatch, "age"));
    assert_eq!(json_error("{\"age\":36.0}"), at(DecodeErrorKind::TypeMismatch, "age"));
    assert_eq!(json_error("{\"age\":3e2}"), at(DecodeErrorKind::TypeMismatch, "age"));
    assert_eq!(json_error("{\"age\":3E2}"), at(DecodeErrorKind::TypeMismatch, "age"));
    assert_eq!(json_error("{\"age\":false}"), at(DecodeErrorKind::TypeMismatch, "age"));
    assert_eq!(json_error("{\"admin\":1}"), at(DecodeErrorKind::TypeMismatch, "admin"));
    assert_eq!(json_error("{\"admin\":\"true\"}"), at(DecodeErrorKind::TypeMismatch, "admin"));
    assert_eq!(json_error("{\"admin\":null}"), at(DecodeErrorKind::TypeMismatch, "admin"));
    assert_eq!(json_error("[]"), (DecodeErrorKind::TypeMismatch, None));
    assert_eq!(json_error("\"text\""), (DecodeErrorKind::TypeMismatch, None));
    assert_eq!(json_error("12"), (DecodeErrorKind::TypeMismatch, None));
    assert_eq!(json_error("null"), (DecodeErrorKind::TypeMismatch, None));
}

#[test]
fn json_integers_must_fit_in_64_bits() {
    assert_eq!(
        json_error("{\"age\":9223372036854775808}"),
        at(DecodeErrorKind::TypeMismatch, "age")
    );
    assert_eq!(
        json_error("{\"age\":-9223372036854775809}"),
        at(DecodeErrorKind::TypeMismatch, "age")
    );
    assert_eq!(
        json_error("{\"age\":123456789012345678901234567890}"),
        at(DecodeErrorKind::TypeMismatch, "age")
    );
    let shape = MessageShape::new("N", vec![FieldDescriptor::new("n", FieldKind::Integer)]);
    assert_eq!(
        decode(ContentType::Json, b"{\"n\":-9223372036854775808}", &shape),
        Ok(Message::new(vec![Value::Integer(i64::MIN)]))
    );
    assert_eq!(
        decode(ContentType::Json, b"{\"n\":9223372036854775807}", &shape),
        Ok(Message::new(vec![Value::Integer(i64::MAX)]))
    );
    assert_eq!(
        decode(ContentType::Json, b"{\"n\":-0}", &shape),
        Ok(Message::new(vec![Value::Integer(0)]))
    );
}

#[test]
fn json_fields_that_are_absent_are_missing() {
    assert_eq!(json_error("{}"), at(DecodeErrorKind::MissingField, "name"));
    assert_eq!(json_error("{\"name\":\"Ada\"}"), at(DecodeErrorKind::MissingField, "age"));
    assert_eq!(
        json_error("{\"admin\":true,\"name\":\"Ada\"}"),
        at(DecodeErrorKind::MissingField, "age")
    );
    assert_eq!(
        json_error("{\"age\":1,\"name\":\"Ada\",\"Admin\":true}"),
        at(DecodeErrorKind::MissingField, "admin")
    );
}

#[test]
fn json_nesting_of_ignored_members_is_bounded() {
    let deep = |depth: usize| {
        format!(
            "{{\"x\":{}{},\"name\":\"Ada\",\"age\":36,\"admin\":true}}",
            "[".repeat(depth),
            "]".repeat(depth)
        )
    };
    assert_eq!(json(&deep(1)), Ok(ada()));
    assert_eq!(json(&deep(64)), Ok(ada()));
    assert_eq!(json_error(&deep(65)), (DecodeErrorKind::Malformed, None));
    assert_eq!(json_error(&deep(100000)), (DecodeErrorKind::Malformed, None));
}

#[test]
fn binary_frames_each_field_with_its_length() {
    let body = encode(ContentType::Proto, &person(), &ada()).unwrap();
    let mut expected = vec![3, 0, 0, 0, 0, 0, 0, 0];
    expected.extend_from_slice(b"Ada");
    expected.extend_from_slice(&[8, 0, 0, 0, 0, 0, 0, 0, 36, 0, 0, 0, 0, 0, 0, 0]);
    expected.extend_from_slice(&[1, 0, 0, 0, 0, 0, 0, 0, 1]);
    assert_eq!(body, expected);
    assert_eq!(decode(ContentType::Proto, &body, &person()), Ok(ada()));
}

#[test]
fn binary_integers_are_little_endian_twos_complement() {
    let shape = MessageShape::new("N", vec![FieldDescriptor::new("n", FieldKind::Integer)]);
    for (value, bytes) in [
        (0i64, [0u8, 0, 0, 0, 0, 0, 0, 0]),
        (1, [1, 0, 0, 0, 0, 0, 0, 0]),
        (258, [2, 1, 0, 0, 0, 0, 0, 0]),
        (-1, [255, 255, 255, 255, 255, 255, 255, 255]),
        (-2, [254, 255, 255, 255, 255, 255, 255, 255]),
        (i64::MAX, [255, 255, 255, 255, 255, 255, 255, 127]),
        (i64::MIN, [0, 0, 0, 0, 0, 0, 0, 128]),
    ] {
        let message = Message::new(vec![Value::Integer(value)]);
        let body = encode(ContentType::Proto, &shape, &message).unwrap();
        let mut expected = vec![8, 0, 0, 0, 0, 0, 0, 0];
        expected.extend_from_slice(&bytes);
        assert_eq!(body, expected);
        assert_eq!(body[8..], value.to_le_bytes());
        assert_eq!(decode(ContentType::Proto, &body, &shape), Ok(message));
    }
}

#[test]
fn binary_round_trip_gives_the_message_back() {
    for message in [
        ada(),
        Message::new(vec![Value::text(""), Value::Integer(-5), Value::Boolean(false)]),
        Message::new(vec![Value::text("é😀\u{0}"), Value::Integer(i64::MIN), Value::Boolean(true)]),
    ] {
        let body = encode(ContentType::Proto, &person(), &message).unwrap();
        assert_eq!(decode(ContentType::Proto, &body, &person()), Ok(message));
    }
    let empty = MessageShape::new("Empty", vec![]);
    let body = encode(ContentType::Proto, &empty, &Message::new(vec![])).unwrap();
    assert_eq!(body, Vec::<u8>::new());
    assert_eq!(decode(ContentType::Proto, &body, &empty), Ok(Message::new(vec![])));
}

#[test]
fn binary_truncated_bodies_are_rejected_at_the_field() {
    let body = encode(ContentType::Proto, &person(), &ada()).unwrap();
    let field_at = |length: usize| {
        if length < 11 {
            "name"
        } else if length < 27 {
            "age"
        } else {
            "admin"
        }
    };
    for length in 0..body.len() {
        let error = decode(ContentType::Proto, &body[..length], &person()).unwrap_err();
        assert_eq!(error.kind, DecodeErrorKind::Truncated, "{}", length);
        assert_eq!(error.field, Some(field_at(length).to_string()), "{}", length);
    }
    for huge in [
        [255, 255, 255, 255, 255, 255, 255, 255, 1, 2, 3],
        [4, 0, 0, 0, 0, 0, 0, 0, 1, 2, 3],
        [3, 0, 0, 0, 1, 0, 0, 0, 1, 2, 3],
        [3, 0, 0, 0, 0, 0, 0, 128, 1, 2, 3],
    ] {
        let error = decode(ContentType::Proto, &huge, &person()).unwrap_err();
        assert_eq!(
            error,
            DecodeError { kind: DecodeErrorKind::Truncated, field: Some("name".to_string()) }
        );
    }
}

#[test]
fn binary_rejects_what_does_not_fit_the_shape() {
    let error_of = |body: &[u8]| {
        let error = decode(ContentType::Proto, body, &person()).unwrap_err();
        (error.kind, error.field)
    };
    let name = [3, 0, 0, 0, 0, 0, 0, 0, b'A', b'd', b'a'];
    let age = [8, 0, 0, 0, 0, 0, 0, 0, 36, 0, 0, 0, 0, 0, 0, 0];
    let join = |parts: &[&[u8]]| parts.concat();
    assert_eq!(
        error_of(&join(&[&name, &age, &[1, 0, 0, 0, 0, 0, 0, 0, 1], &[0]])),
        (DecodeErrorKind::Malformed, None)
    );
    assert_eq!(
        error_of(&join(&[&name, &age, &[1, 0, 0, 0, 0, 0, 0, 0, 2]])),
        at(DecodeErrorKind::Malformed, "admin")
    );
    assert_eq!(
        error_of(&join(&[&name, &age, &[0, 0, 0, 0, 0, 0, 0, 0]])),
        at(DecodeErrorKind::TypeMismatch, "admin")
    );
    assert_eq!(
        error_of(&join(&[&name, &age, &[2, 0, 0, 0, 0, 0, 0, 0, 1, 0]])),
        at(DecodeErrorKind::TypeMismatch, "admin")
    );
    assert_eq!(
        error_of(&join(&[
            &name,
            &[4, 0, 0, 0, 0, 0, 0, 0, 36, 0, 0, 0],
            &[1, 0, 0, 0, 0, 0, 0, 0, 1]
        ])),
        at(DecodeErrorKind::TypeMismatch, "age")
    );
    assert_eq!(
        error_of(&join(&[
            &[2, 0, 0, 0, 0, 0, 0, 0, 0xc3, 0x28],
            &age,
            &[1, 0, 0, 0, 0, 0, 0, 0, 1]
        ])),
        at(DecodeErrorKind::Malformed, "name")
    );
}

#[test]
fn messages_that_do_not_fit_the_shape_are_not_encoded() {
    let short = Message::new(vec![Value::text("Ada"), Value::Integer(36)]);
    let long = Message::new(vec![
        Value::text("Ada"),
        Value::Integer(36),
        Value::Boolean(true),
        Value::Boolean(true),
    ]);
    let swapped = Message::new(vec![Value::Integer(36), Value::text("Ada"), Value::Boolean(true)]);
    for message in [short, long, swapped] {
        assert!(!message.conforms_to(&person()));
        for content_type in [ContentType::Json, ContentType::Proto] {
            assert_eq!(
                encode(content_type, &person(), &message),
                Err(EncodeError::ShapeMismatch)
            );
        }
    }
    assert!(ada().conforms_to(&person()));
}

#[test]
fn encoding_is_deterministic() {
    for content_type in [ContentType::Json, ContentType::Proto] {
        let first = encode(content_type, &person(), &ada()).unwrap();
        let second = encode(content_type, &person(), &ada()).unwrap();
        assert_eq!(first, second);
    }
}

#[test]
fn decode_errors_describe_themselves() {
    let describe = |body: &str| json(body).unwrap_err().describe();
    assert_eq!(describe("{\"name\": 123}"), "value has the wrong type: name");
    assert_eq!(describe("{\"name\":\"Ada\"}"), "field is missing: age");
    assert_eq!(describe("{\"name\":\"Ad"), "body is truncated: name");
    assert_eq!(describe("{"), "body is truncated");
    assert_eq!(describe("{]"), "body is malformed");
    assert_eq!(describe("{\"age\":01}"), "body is malformed: age");
}

#[test]
fn values_know_their_kind_and_content() {
    assert_eq!(Value::text("a").kind(), FieldKind::Text);
    assert_eq!(Value::Integer(1).kind(), FieldKind::Integer);
    assert_eq!(Value::Boolean(true).kind(), FieldKind::Boolean);
    assert_eq!(Value::text("a").as_text(), Some("a"));
    assert_eq!(Value::text("a").as_integer(), None);
    assert_eq!(Value::Integer(5).as_integer(), Some(5));
    assert_eq!(Value::Integer(5).as_boolean(), None);
    assert_eq!(Value::Boolean(false).as_boolean(), Some(false));
    assert_eq!(Value::Boolean(false).as_text(), None);
    assert_eq!(Value::text("x").copy(), Value::text("x"));
    assert_eq!(ada().get(1), Some(&Value::Integer(36)));
    assert_eq!(ada().get(3), None);
}
