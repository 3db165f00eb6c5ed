use web_log_backend::codec::{decode, encode, ContentType};
use web_log_backend::dispatch::{
    decode_request, error_response, negotiate, respond, Call, Dispatcher, DispatcherBuilder,
    Header, RawRequest, RawResponse, RoutingTable,
};
use web_log_backend::error::{ErrorKind, RpcError};
use web_log_backend::hello;
use web_log_backend::registry::RegistryError;
use web_log_backend::schema::{
    FieldDescriptor, FieldKind, Message, MessageShape, MethodDescriptor, ServiceDescriptor, Value,
};

type Handler = fn(Message) -> Result<Message, RpcError>;

const SAY_HELLO: &str = "/hello.v1.HelloService/SayHello";

fn text_shape(name: &str, field: &str) -> MessageShape {
    MessageShape::new(name, vec![FieldDescriptor::new(field, FieldKind::Text)])
}

fn echo(request: Message) -> Result<Message, RpcError> {
    match request.get(0).and_then(|value| value.as_text()) {
        Some(name) => Ok(Message::new(vec![Value::text(&format!("Hello, {}", name))])),
        None => Err(RpcError::new(ErrorKind::Internal, "unexpected request".to_string())),
    }
}

fn unavailable(_request: Message) -> Result<Message, RpcError> {
    Err(RpcError::new(ErrorKind::Unavailable, "the \"store\" is down".to_string()))
}

fn foreign(_request: Message) -> Result<Message, RpcError> {
    Err(RpcError::new(ErrorKind::Unrecognized, "deadline exceeded".to_string()))
}

fn misshapen(_request: Message) -> Result<Message, RpcError> {
    Ok(Message::new(vec![Value::Integer(1)]))
}

fn hello_service(methods: &[&str]) -> ServiceDescriptor {
    let mut service = ServiceDescriptor::new("hello.v1.HelloService");
    for method in methods {
        service.add_method(
            method,
            text_shape("hello.v1.HelloRequest", "name"),
            text_shape("hello.v1.HelloResponse", "message"),
        );
    }
    service
}

fn dispatcher() -> Dispatcher<Handler> {
    let mut builder: DispatcherBuilder<Handler> = DispatcherBuilder::new();
    let handlers: Vec<Handler> = vec![echo, unavailable, foreign, misshapen];
    builder
        .register_service(hello_service(&["SayHello", "Down", "Foreign", "Misshapen"]), handlers)
        .unwrap();
    builder.seal().unwrap()
}

fn post(path: &str, content_type: Option<&str>, body: &[u8]) -> RawRequest {
    let mut headers = vec![Header { name: "accept".to_string(), value: "*/*".to_string() }];
    if let Some(value) = content_type {
        headers.push(Header { name: "Content-Type".to_string(), value: value.to_string() });
    }
    RawRequest { path: path.to_string(), headers, body: body.to_vec() }
}

fn error(status: u16, body: &str) -> RawResponse {
    RawResponse { status, content_type: ContentType::Json, body: body.as_bytes().to_vec() }
}

fn greeting_dispatcher() -> Dispatcher<Handler> {
    let mut builder: DispatcherBuilder<Handler> = DispatcherBuilder::new();
    builder.register_service(hello::service(), vec![hello::say_hello as Handler]).unwrap();
    builder.seal().unwrap()
}

#[test]
fn say_hello_end_to_end() {
    let request = post(SAY_HELLO, Some("application/json"), b"{\"name\":\"World\"}");
    let response = greeting_dispatcher().handle(&request);
    assert_eq!(response.status, 200);
    assert_eq!(response.content_type, ContentType::Json);
    assert_eq!(response.body, b"{\"message\":\"Hello, World\"}".to_vec());
}

#[test]
fn greeting_has_nothing_behind_the_name() {
    let dispatcher = greeting_dispatcher();
    for (name, body) in [
        ("Ada", "{\"message\":\"Hello, Ada\"}"),
        ("", "{\"message\":\"Hello, \"}"),
        ("é \\\"x\\\"", "{\"message\":\"Hello, é \\\"x\\\"\"}"),
    ] {
        let request = post(
            SAY_HELLO,
            Some("application/json"),
            format!("{{\"name\":\"{}\"}}", name).as_bytes(),
        );
        let response = dispatcher.handle(&request);
        assert_eq!(response.status, 200);
        assert_eq!(String::from_utf8(response.body).unwrap(), body);
    }
}

#[test]
fn handler_of_another_kind_is_served_as_well() {
    let request = post(SAY_HELLO, Some("application/json"), b"{\"name\":\"World\"}");
    let response = dispatcher().handle(&request);
    assert_eq!(response.status, 200);
    assert_eq!(response.body, b"{\"message\":\"Hello, World\"}".to_vec());
}

#[test]
fn binary_request_gets_a_binary_response() {
    let request_shape = text_shape("hello.v1.HelloRequest", "name");
    let response_shape = text_shape("hello.v1.HelloResponse", "message");
    let body =
        encode(ContentType::Proto, &request_shape, &Message::new(vec![Value::text("World")]))
            .unwrap();
    assert_eq!(body, b"\x05\0\0\0\0\0\0\0World".to_vec());
    let response = dispatcher().handle(&post(SAY_HELLO, Some("application/proto"), &body));
    assert_eq!(response.status, 200);
    assert_eq!(response.content_type, ContentType::Proto);
    assert_eq!(response.body, b"\x0c\0\0\0\0\0\0\0Hello, World".to_vec());
    assert_eq!(
        decode(ContentType::Proto, &response.body, &response_shape),
        Ok(Message::new(vec![Value::text("Hello, World")]))
    );
}

#[test]
fn unknown_path_is_not_found() {
    let dispatcher = dispatcher();
    for path in ["/nope", "/hello.v1.HelloService/SayHello/", "hello.v1.HelloService/SayHello", ""] {
        let response = dispatcher.handle(&post(path, Some("application/json"), b"{}"));
        assert_eq!(
            response,
            error(
                404,
                &format!("{{\"code\":\"NotFound\",\"message\":\"no method is served at {}\"}}", path)
            )
        );
    }
    let response = dispatcher.handle(&post("/nope", None, b"not even json"));
    assert_eq!(response.status, 404);
    assert!(response.body.starts_with(b"{\"code\":\"NotFound\","));
}

#[test]
fn missing_content_type_is_not_supported() {
    let response = dispatcher().handle(&post(SAY_HELLO, None, b"{\"name\":\"World\"}"));
    assert_eq!(
        response,
        error(415, "{\"code\":\"UnsupportedMediaType\",\"message\":\"content type is missing\"}")
    );
    let bare = RawRequest { path: SAY_HELLO.to_string(), headers: vec![], body: vec![] };
    assert_eq!(dispatcher().handle(&bare).status, 415);
}

#[test]
fn unknown_content_type_is_not_supported() {
    let response = dispatcher().handle(&post(SAY_HELLO, Some("text/plain"), b"{\"name\":\"W\"}"));
    assert_eq!(
        response,
        error(
            415,
            "{\"code\":\"UnsupportedMediaType\",\"message\":\"content type is not supported: text/plain\"}"
        )
    );
}

#[test]
fn content_type_may_carry_parameters_and_any_case() {
    let dispatcher = greeting_dispatcher();
    for value in ["application/json; charset=utf-8", "Application/JSON", " application/json ;x"] {
        let response = dispatcher.handle(&post(SAY_HELLO, Some(value), b"{\"name\":\"World\"}"));
        assert_eq!(response.status, 200, "{}", value);
        assert_eq!(response.content_type, ContentType::Json);
        assert_eq!(response.body, b"{\"message\":\"Hello, World\"}".to_vec());
    }
    let response = dispatcher.handle(&post(
        SAY_HELLO,
        Some("APPLICATION/PROTO; v=1"),
        b"\x05\0\0\0\0\0\0\0World",
    ));
    assert_eq!(response.status, 200);
    assert_eq!(response.content_type, ContentType::Proto);
    assert_eq!(response.body, b"\x0c\0\0\0\0\0\0\0Hello, World".to_vec());
}

#[test]
fn repeated_field_and_ill_formed_name_are_invalid_arguments() {
    let dispatcher = greeting_dispatcher();
    let response = dispatcher.handle(&post(
        SAY_HELLO,
        Some("application/json"),
        b"{\"name\":\"World\",\"name\":\"World\"}",
    ));
    assert_eq!(
        response,
        error(400, "{\"code\":\"InvalidArgument\",\"message\":\"body is malformed: name\"}")
    );
    let response = dispatcher.handle(&post(
        SAY_HELLO,
        Some("application/json"),
        b"{\"name\":\"World\",\"\xff\":1}",
    ));
    assert_eq!(
        response,
        error(400, "{\"code\":\"InvalidArgument\",\"message\":\"body is malformed\"}")
    );
}

#[test]
fn content_type_header_is_found_in_any_case() {
    let dispatcher = dispatcher();
    for name in ["content-type", "Content-Type", "CONTENT-TYPE", "cOnTeNt-TyPe"] {
        let request = RawRequest {
            path: SAY_HELLO.to_string(),
            headers: vec![
                Header { name: "content-typ".to_string(), value: "text/plain".to_string() },
                Header { name: "content_type".to_string(), value: "text/plain".to_string() },
                Header { name: "contént-type".to_string(), value: "text/plain".to_string() },
                Header { name: name.to_string(), value: "application/json".to_string() },
                Header { name: "content-type".to_string(), value: "text/plain".to_string() },
            ],
            body: b"{\"name\":\"World\"}".to_vec(),
        };
        assert_eq!(negotiate(&request), Ok(ContentType::Json), "{}", name);
        assert_eq!(dispatcher.handle(&request).status, 200, "{}", name);
    }
}

#[test]
fn malformed_body_is_an_invalid_argument() {
    let dispatcher = dispatcher();
    let response = dispatcher.handle(&post(SAY_HELLO, Some("application/json"), b"{\"name\": 123}"));
    assert_eq!(
        response,
        error(
            400,
            "{\"code\":\"InvalidArgument\",\"message\":\"value has the wrong type: name\"}"
        )
    );
    let response = dispatcher.handle(&post(SAY_HELLO, Some("application/json"), b"{\"name\":\"Wor"));
    assert_eq!(
        response,
        error(400, "{\"code\":\"InvalidArgument\",\"message\":\"body is truncated: name\"}")
    );
    let response = dispatcher.handle(&post(SAY_HELLO, Some("application/json"), b"{}"));
    assert_eq!(
        response,
        error(400, "{\"code\":\"InvalidArgument\",\"message\":\"field is missing: name\"}")
    );
    let response = dispatcher.handle(&post(SAY_HELLO, Some("application/proto"), b"{\"name\":1}"));
    assert_eq!(response.status, 400);
    assert!(response.body.starts_with(b"{\"code\":\"InvalidArgument\","));
    assert_eq!(response.content_type, ContentType::Json);
}

#[test]
fn path_is_looked_up_before_the_content_type_and_the_body() {
    let response = dispatcher().handle(&post("/nope", Some("text/plain"), b"{"));
    assert_eq!(response.status, 404);
    let response = dispatcher().handle(&post(SAY_HELLO, Some("text/plain"), b"{"));
    assert_eq!(response.status, 415);
    let response = dispatcher().handle(&post(SAY_HELLO, Some("application/json"), b"{"));
    assert_eq!(response.status, 400);
}

#[test]
fn handler_error_passes_through_unchanged() {
    let request = post("/hello.v1.HelloService/Down", Some("application/json"), b"{\"name\":\"x\"}");
    assert_eq!(
        dispatcher().handle(&request),
        error(503, "{\"code\":\"Unavailable\",\"message\":\"the \\\"store\\\" is down\"}")
    );
    let binary =
        post("/hello.v1.HelloService/Down", Some("application/proto"), b"\0\0\0\0\0\0\0\0");
    assert_eq!(
        dispatcher().handle(&binary),
        error(503, "{\"code\":\"Unavailable\",\"message\":\"the \\\"store\\\" is down\"}")
    );
}

#[test]
fn unrecognized_kind_is_an_internal_error() {
    let request =
        post("/hello.v1.HelloService/Foreign", Some("application/json"), b"{\"name\":\"x\"}");
    assert_eq!(
        dispatcher().handle(&request),
        error(500, "{\"code\":\"Internal\",\"message\":\"deadline exceeded\"}")
    );
}

#[test]
fn response_that_does_not_fit_its_shape_is_an_internal_error() {
    let request =
        post("/hello.v1.HelloService/Misshapen", Some("application/json"), b"{\"name\":\"x\"}");
    assert_eq!(
        dispatcher().handle(&request),
        error(500, "{\"code\":\"Internal\",\"message\":\"response does not fit its shape\"}")
    );
}

#[test]
fn every_kind_has_its_status_and_code() {
    for (kind, status, code) in [
        (ErrorKind::NotFound, 404, "NotFound"),
        (ErrorKind::UnsupportedMediaType, 415, "UnsupportedMediaType"),
        (ErrorKind::InvalidArgument, 400, "InvalidArgument"),
        (ErrorKind::Unauthenticated, 401, "Unauthenticated"),
        (ErrorKind::PermissionDenied, 403, "PermissionDenied"),
        (ErrorKind::Internal, 500, "Internal"),
        (ErrorKind::Unavailable, 503, "Unavailable"),
        (ErrorKind::Unrecognized, 500, "Internal"),
    ] {
        assert_eq!(kind.status(), status);
        assert_eq!(kind.code(), code);
        let response = error_response(&RpcError::new(kind, "why".to_string()));
        assert_eq!(
            response,
            error(status, &format!("{{\"code\":\"{}\",\"message\":\"why\"}}", code))
        );
    }
}

#[test]
fn requests_do_not_interfere() {
    let dispatcher = dispatcher();
    let first = post(SAY_HELLO, Some("application/json"), b"{\"name\":\"Ada\"}");
    let second = post(SAY_HELLO, Some("application/proto"), b"\x03\0\0\0\0\0\0\0Bob");
    let first_call = dispatcher.begin(&first).unwrap();
    let second_call = dispatcher.begin(&second).unwrap();
    let failed = dispatcher.begin(&post(SAY_HELLO, None, b""));
    assert_eq!(failed.unwrap_err().kind, ErrorKind::UnsupportedMediaType);
    let second_outcome = echo(second_call.request.clone());
    let first_outcome = echo(first_call.request.clone());
    let second_response =
        dispatcher.finish(second_call.method, second_call.content_type, second_outcome);
    let first_response =
        dispatcher.finish(first_call.method, first_call.content_type, first_outcome);
    assert_eq!(first_response, dispatcher.handle(&first));
    assert_eq!(second_response, dispatcher.handle(&second));
    assert_eq!(first_response.body, b"{\"message\":\"Hello, Ada\"}".to_vec());
    assert_eq!(second_response.body, b"\x0a\0\0\0\0\0\0\0Hello, Bob".to_vec());
    assert_eq!(dispatcher.handle(&first), dispatcher.handle(&first));
}

#[test]
fn stages_can_be_run_one_by_one() {
    let dispatcher = dispatcher();
    let request = post(SAY_HELLO, Some("application/json"), b" {\"name\" : \"World\"} ");
    let call = dispatcher.begin(&request).unwrap();
    assert_eq!(
        call,
        Call {
            method: 0,
            content_type: ContentType::Json,
            request: Message::new(vec![Value::text("World")]),
        }
    );
    let binding = dispatcher.table().binding(call.method).unwrap();
    assert_eq!(binding.descriptor.path(), SAY_HELLO);
    let outcome = binding.invoke(call.request);
    assert_eq!(outcome, Ok(Message::new(vec![Value::text("Hello, World")])));
    let response = dispatcher.finish(call.method, call.content_type, outcome);
    assert_eq!(response.status, 200);
    assert_eq!(response.body, b"{\"message\":\"Hello, World\"}".to_vec());
    let lost = dispatcher.finish(9, ContentType::Json, Ok(Message::new(vec![])));
    assert_eq!(lost, error(500, "{\"code\":\"Internal\",\"message\":\"no method at this place\"}"));
}

#[test]
fn single_steps_answer_as_the_dispatcher_does() {
    let method = MethodDescriptor::new(
        "hello.v1.HelloService",
        "SayHello",
        text_shape("hello.v1.HelloRequest", "name"),
        text_shape("hello.v1.HelloResponse", "message"),
    );
    assert_eq!(
        decode_request(&method, ContentType::Json, b"{\"name\":\"World\"}"),
        Ok(Message::new(vec![Value::text("World")]))
    );
    let failed = decode_request(&method, ContentType::Json, b"[]").unwrap_err();
    assert_eq!(
        failed,
        RpcError::new(ErrorKind::InvalidArgument, "value has the wrong type".to_string())
    );
    let answered =
        respond(&method, ContentType::Json, Ok(Message::new(vec![Value::text("Hi")])));
    assert_eq!(
        answered,
        RawResponse {
            status: 200,
            content_type: ContentType::Json,
            body: b"{\"message\":\"Hi\"}".to_vec()
        }
    );
    let refused = respond(
        &method,
        ContentType::Proto,
        Err(RpcError::new(ErrorKind::PermissionDenied, "no".to_string())),
    );
    assert_eq!(refused, error(403, "{\"code\":\"PermissionDenied\",\"message\":\"no\"}"));
    let headers = vec![Header { name: "Content-Type".to_string(), value: "x".to_string() }];
    let request = RawRequest { path: String::new(), headers, body: vec![] };
    assert_eq!(
        negotiate(&request),
        Err(RpcError::new(
            ErrorKind::UnsupportedMediaType,
            "content type is not supported: x".to_string()
        ))
    );
}

#[test]
fn service_needs_one_handler_for_each_method() {
    let mut builder: DispatcherBuilder<Handler> = DispatcherBuilder::new();
    let refused = builder.register_service(hello_service(&["A", "B"]), vec![echo as Handler]);
    assert_eq!(refused, Err(RegistryError::HandlerMismatch));
    let refused = builder.register_service(hello_service(&["A"]), vec![]);
    assert_eq!(refused, Err(RegistryError::HandlerMismatch));
    let dispatcher = builder.seal().unwrap();
    let response = dispatcher.handle(&post("/hello.v1.HelloService/A", Some("application/json"), b"{}"));
    assert_eq!(response.status, 404);
}

#[test]
fn colliding_service_is_not_bound() {
    let mut builder: DispatcherBuilder<Handler> = DispatcherBuilder::new();
    builder.register_service(hello_service(&["SayHello"]), vec![echo as Handler]).unwrap();
    let refused = builder
        .register_service(hello_service(&["Other", "SayHello"]), vec![unavailable, unavailable]);
    assert_eq!(refused, Err(RegistryError::DuplicatePath(SAY_HELLO.to_string())));
    let dispatcher = builder.seal().unwrap();
    assert_eq!(dispatcher.table().registry().len(), 1);
    let request = post(SAY_HELLO, Some("application/json"), b"{\"name\":\"World\"}");
    assert_eq!(dispatcher.handle(&request).status, 200);
    let other = post("/hello.v1.HelloService/Other", Some("application/json"), b"{\"name\":\"W\"}");
    assert_eq!(dispatcher.handle(&other).status, 404);
}

#[test]
fn builder_is_sealed_once() {
    let mut builder: DispatcherBuilder<Handler> = DispatcherBuilder::new();
    builder.register_service(hello_service(&["SayHello"]), vec![echo as Handler]).unwrap();
    assert!(!builder.is_sealed());
    let dispatcher = builder.seal().unwrap();
    assert!(builder.is_sealed());
    assert!(dispatcher.table().registry().is_sealed());
    assert!(matches!(builder.seal(), Err(RegistryError::AlreadySealed)));
    assert!(matches!(builder.seal(), Err(RegistryError::AlreadySealed)));
    let late = builder.register_service(hello_service(&["Late"]), vec![echo as Handler]);
    assert_eq!(late, Err(RegistryError::Sealed));
    let request = post(SAY_HELLO, Some("application/json"), b"{\"name\":\"World\"}");
    assert_eq!(dispatcher.handle(&request).status, 200);
}

#[test]
fn routing_table_finds_bindings_by_path() {
    let mut table: RoutingTable<Handler> = RoutingTable::new();
    table.bind(hello_service(&["SayHello", "Down"]), vec![echo, unavailable]).unwrap();
    let binding = table.lookup("/hello.v1.HelloService/Down").unwrap();
    assert_eq!(binding.descriptor.name(), "Down");
    assert_eq!(
        binding.invoke(Message::new(vec![])).unwrap_err().kind,
        ErrorKind::Unavailable
    );
    assert!(table.lookup("/hello.v1.HelloService/Up").is_none());
    assert!(table.handler(1).is_some());
    assert!(table.handler(2).is_none());
    assert!(table.binding(2).is_none());
    assert_eq!(table.seal(), Ok(()));
    assert_eq!(table.seal(), Err(RegistryError::AlreadySealed));
    assert_eq!(
        table.bind(hello_service(&["Late"]), vec![echo as Handler]),
        Err(RegistryError::Sealed)
    );
}
