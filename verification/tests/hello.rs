use web_log_backend::codec::{ContentType, DecodeErrorKind};
use web_log_backend::error::{ErrorKind, RpcError};
use web_log_backend::hello::{
    request_shape, response_shape, say_hello, say_hello_unary, service, HelloRequest,
    HelloResponse,
};
use web_log_backend::schema::{FieldDescriptor, FieldKind, Message, MessageShape, Value};

#[test]
fn say_hello_unary_greets_by_name() {
    let response = say_hello_unary(HelloRequest { name: "World".to_string() });
    assert_eq!(
        response,
        Ok(HelloResponse { message: "Hello, World".to_string() })
    );
    let response = say_hello_unary(HelloRequest { name: String::new() });
    assert_eq!(
        response,
        Ok(HelloResponse { message: "Hello, ".to_string() })
    );
}

#[test]
fn say_hello_works_on_messages() {
    let response = say_hello(Message::new(vec![Value::text("Ada")]));
    assert_eq!(
        response,
        Ok(Message::new(vec![Value::text("Hello, Ada")]))
    );
    for request in [
        Message::new(vec![]),
        Message::new(vec![Value::Integer(1)]),
        Message::new(vec![Value::text("a"), Value::text("b")]),
    ] {
        assert_eq!(
            say_hello(request),
            Err(RpcError::new(
                ErrorKind::InvalidArgument,
                "request is not a greeting request".to_string()
            ))
        );
    }
}

#[test]
fn greeting_messages_convert_both_ways() {
    let request = HelloRequest { name: "Ada".to_string() };
    let message = request.clone().into_message();
    assert_eq!(message, Message::new(vec![Value::text("Ada")]));
    assert!(message.conforms_to(&request_shape()));
    assert_eq!(HelloRequest::from_message(message), Some(request));
    assert_eq!(HelloRequest::from_message(Message::new(vec![Value::Boolean(true)])), None);
    let response = HelloResponse { message: "Hi".to_string() };
    let message = response.clone().into_message();
    assert!(message.conforms_to(&response_shape()));
    assert_eq!(HelloResponse::from_message(message), Some(response));
    assert_eq!(HelloResponse::from_message(Message::new(vec![])), None);
}

#[test]
fn greeting_service_is_described() {
    let service = service();
    assert_eq!(service.name(), "hello.v1.HelloService");
    assert_eq!(service.methods().len(), 1);
    let method = &service.methods()[0];
    assert_eq!(method.name(), "SayHello");
    assert_eq!(method.path(), "/hello.v1.HelloService/SayHello");
    assert_eq!(
        method.request(),
        &MessageShape::new(
            "hello.v1.HelloRequest",
            vec![FieldDescriptor::new("name", FieldKind::Text)]
        )
    );
    assert_eq!(
        method.response(),
        &MessageShape::new(
            "hello.v1.HelloResponse",
            vec![FieldDescriptor::new("message", FieldKind::Text)]
        )
    );
}

#[test]
fn greeting_messages_come_back_from_the_wire() {
    for name in ["World", "", "é \"x\" \\ \n 😀"] {
        let request = HelloRequest { name: name.to_string() };
        let response = say_hello_unary(request.clone()).unwrap();
        assert_eq!(response.message, format!("Hello, {}", name));
        for content_type in [ContentType::Json, ContentType::Proto] {
            let body = request.to_bytes(content_type);
            assert_eq!(HelloRequest::from_bytes(content_type, &body), Ok(request.clone()));
            let body = response.to_bytes(content_type);
            assert_eq!(HelloResponse::from_bytes(content_type, &body), Ok(response.clone()));
        }
    }
    let request = HelloRequest { name: "World".to_string() };
    assert_eq!(request.to_bytes(ContentType::Json), b"{\"name\":\"World\"}".to_vec());
    assert_eq!(request.to_bytes(ContentType::Proto), b"\x05\0\0\0\0\0\0\0World".to_vec());
    let response = HelloResponse { message: "Hello, World".to_string() };
    assert_eq!(response.to_bytes(ContentType::Json), b"{\"message\":\"Hello, World\"}".to_vec());
    let error = HelloRequest::from_bytes(ContentType::Json, b"{\"name\": 123}").unwrap_err();
    assert_eq!(error.kind, DecodeErrorKind::TypeMismatch);
    assert_eq!(error.field, Some("name".to_string()));
    let error = HelloResponse::from_bytes(ContentType::Proto, b"\x05\0\0\0").unwrap_err();
    assert_eq!(error.kind, DecodeErrorKind::Truncated);
}
