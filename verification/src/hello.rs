//! The greeting service: one method that takes a name and answers with a
//! greeting.

use crate::codec::{
    decode, decode_spec, encode, encode_spec, ContentType, DecodeError, DecodeErrorKind,
    DecodeFault, EncodeError,
};
use crate::dispatch::outcome_model;
use crate::error::{plain_fault, ErrorKind, RpcError, RpcFault};
use crate::schema::{
    conforms, derived_path, FieldDescriptor, FieldKind, FieldSpec, Message, MessageShape,
    MethodSpec, ServiceDescriptor, ServiceSpec, ShapeSpec, Value, ValueSpec,
};
use vstd::prelude::*;
use vstd::string::StringExecFns;

verus! {

/// The fields of a greeting request: the name to greet.
pub open spec fn request_fields() -> Seq<FieldSpec> {
    seq![FieldSpec { name: "name"@, kind: FieldKind::Text }]
}

/// The fields of a greeting response: the greeting.
pub open spec fn response_fields() -> Seq<FieldSpec> {
    seq![FieldSpec { name: "message"@, kind: FieldKind::Text }]
}

/// The greeting service as its descriptor states it.
pub open spec fn service_spec() -> ServiceSpec {
    ServiceSpec {
        name: "hello.v1.HelloService"@,
        methods: seq![
            MethodSpec {
                service: "hello.v1.HelloService"@,
                name: "SayHello"@,
                request: ShapeSpec { name: "hello.v1.HelloRequest"@, fields: request_fields() },
                response: ShapeSpec { name: "hello.v1.HelloResponse"@, fields: response_fields() },
                path: derived_path("hello.v1.HelloService"@, "SayHello"@),
            },
        ],
    }
}

/// The words that greet `name`: `Hello, ` and the name, with nothing
/// behind it.
pub open spec fn greeting(name: Seq<char>) -> Seq<char> {
    "Hello, "@ + name
}

/// The shape of a greeting request.
pub fn request_shape() -> (shape: MessageShape)
    ensures
        shape@ == (ShapeSpec { name: "hello.v1.HelloRequest"@, fields: request_fields() }),
{
    let shape = MessageShape {
        name: "hello.v1.HelloRequest".to_owned(),
        fields: vec![FieldDescriptor { name: "name".to_owned(), kind: FieldKind::Text }],
    };
    assert(shape@.fields =~= request_fields());
    shape
}

/// The shape of a greeting response.
pub fn response_shape() -> (shape: MessageShape)
    ensures
        shape@ == (ShapeSpec { name: "hello.v1.HelloResponse"@, fields: response_fields() }),
{
    let shape = MessageShape {
        name: "hello.v1.HelloResponse".to_owned(),
        fields: vec![FieldDescriptor { name: "message".to_owned(), kind: FieldKind::Text }],
    };
    assert(shape@.fields =~= response_fields());
    shape
}

/// The descriptor of the greeting service.
pub fn service() -> (service: ServiceDescriptor)
    ensures
        service@ == service_spec(),
{
    let mut service = ServiceDescriptor::new("hello.v1.HelloService");
    service.add_method("SayHello", request_shape(), response_shape());
    assert(service@.methods =~= service_spec().methods);
    service
}

/// A greeting request.
#[derive(Clone, Debug, PartialEq, Eq)]
pub struct HelloRequest {
    pub name: String,
}

/// A greeting response.
#[derive(Clone, Debug, PartialEq, Eq)]
pub struct HelloResponse {
    pub message: String,
}

impl HelloRequest {
    /// Reads a greeting request out of a message, if the message is one.
    pub fn from_message(message: Message) -> (r: Option<HelloRequest>)
        ensures
            match r {
                Some(request) => message@ == seq![ValueSpec::Text(request.name@)],
                None => !conforms(message@, request_fields()),
            },
    {
        let mut fields = message.fields;
        if fields.len() != 1 {
            return None;
        }
        match fields.pop() {
            Some(Value::Text(name)) => {
                assert(message@ =~= seq![ValueSpec::Text(name@)]);
                Some(HelloRequest { name })
            },
            _ => {
                assert(message@[0].kind() != request_fields()[0].kind);
                None
            },
        }
    }

    /// The request as a message.
    pub fn into_message(self) -> (message: Message)
        ensures
            message@ == seq![ValueSpec::Text(self.name@)],
            conforms(message@, request_fields()),
    {
        let message = Message { fields: vec![Value::Text(self.name)] };
        assert(message@ =~= seq![ValueSpec::Text(self.name@)]);
        message
    }
}

impl HelloRequest {
    /// The request on the wire, in the given format. What is written is
    /// read back as the same request.
    pub fn to_bytes(&self, content_type: ContentType) -> (body: Vec<u8>)
        ensures
            encode_spec(content_type, request_fields(), seq![ValueSpec::Text(self.name@)]) == Ok::<
                Seq<u8>,
                EncodeError,
            >(body@),
            decode_spec(content_type, body@, request_fields()) == Ok::<
                Seq<ValueSpec>,
                DecodeFault,
            >(seq![ValueSpec::Text(self.name@)]),
    {
        let message = Message { fields: vec![Value::Text(self.name.clone())] };
        assert(message@ =~= seq![ValueSpec::Text(self.name@)]);
        match encode(content_type, &request_shape(), &message) {
            Ok(body) => body,
            Err(_) => Vec::new(),
        }
    }

    /// Reads a request from the wire, in the given format.
    pub fn from_bytes(content_type: ContentType, body: &[u8]) -> (r: Result<
        HelloRequest,
        DecodeError,
    >)
        ensures
            match decode_spec(content_type, body@, request_fields()) {
                Ok(values) => r matches Ok(request) && values == seq![
                    ValueSpec::Text(request.name@),
                ],
                Err(f) => r matches Err(error) && error@ == f,
            },
    {
        match decode(content_type, body, &request_shape()) {
            Ok(message) => match HelloRequest::from_message(message) {
                Some(request) => Ok(request),
                None => Err(DecodeError { kind: DecodeErrorKind::Malformed, field: None }),
            },
            Err(error) => Err(error),
        }
    }
}

impl HelloResponse {
    /// The response on the wire, in the given format. What is written is
    /// read back as the same response.
    pub fn to_bytes(&self, content_type: ContentType) -> (body: Vec<u8>)
        ensures
            encode_spec(content_type, response_fields(), seq![ValueSpec::Text(self.message@)])
                == Ok::<Seq<u8>, EncodeError>(body@),
            decode_spec(content_type, body@, response_fields()) == Ok::<
                Seq<ValueSpec>,
                DecodeFault,
            >(seq![ValueSpec::Text(self.message@)]),
    {
        let message = Message { fields: vec![Value::Text(self.message.clone())] };
        assert(message@ =~= seq![ValueSpec::Text(self.message@)]);
        match encode(content_type, &response_shape(), &message) {
            Ok(body) => body,
            Err(_) => Vec::new(),
        }
    }

    /// Reads a response from the wire, in the given format.
    pub fn from_bytes(content_type: ContentType, body: &[u8]) -> (r: Result<
        HelloResponse,
        DecodeError,
    >)
        ensures
            match decode_spec(content_type, body@, response_fields()) {
                Ok(values) => r matches Ok(response) && values == seq![
                    ValueSpec::Text(response.message@),
                ],
                Err(f) => r matches Err(error) && error@ == f,
            },
    {
        match decode(content_type, body, &response_shape()) {
            Ok(message) => match HelloResponse::from_message(message) {
                Some(response) => Ok(response),
                None => Err(DecodeError { kind: DecodeErrorKind::Malformed, field: None }),
            },
            Err(error) => Err(error),
        }
    }

    /// Reads a greeting response out of a message, if the message is one.
    pub fn from_message(message: Message) -> (r: Option<HelloResponse>)
        ensures
            match r {
                Some(response) => message@ == seq![ValueSpec::Text(response.message@)],
                None => !conforms(message@, response_fields()),
            },
    {
        let mut fields = message.fields;
        if fields.len() != 1 {
            return None;
        }
        match fields.pop() {
            Some(Value::Text(text)) => {
                assert(message@ =~= seq![ValueSpec::Text(text@)]);
                Some(HelloResponse { message: text })
            },
            _ => {
                assert(message@[0].kind() != response_fields()[0].kind);
                None
            },
        }
    }

    /// The response as a message.
    pub fn into_message(self) -> (message: Message)
        ensures
            message@ == seq![ValueSpec::Text(self.message@)],
            conforms(message@, response_fields()),
    {
        let message = Message { fields: vec![Value::Text(self.message)] };
        assert(message@ =~= seq![ValueSpec::Text(self.message@)]);
        message
    }
}

/// Greets the one who asks. Never fails.
pub fn say_hello_unary(request: HelloRequest) -> (r: Result<HelloResponse, RpcError>)
    ensures
        r matches Ok(response) && response.message@ == "Hello, "@ + request.name@,
{
    let mut message = "Hello, ".to_owned();
    message.append(request.name.as_str());
    Ok(HelloResponse { message })
}

/// What the greeting handler makes of a request: the greeting for a
/// message that is a greeting request, an invalid argument for any other.
pub open spec fn said(request: Seq<ValueSpec>) -> Result<Seq<ValueSpec>, RpcFault> {
    if conforms(request, request_fields()) {
        Ok(seq![ValueSpec::Text(greeting(request[0]->Text_0))])
    } else {
        Err(plain_fault(ErrorKind::InvalidArgument, "request is not a greeting request"@))
    }
}

/// The handler of `SayHello` on messages, as the dispatcher calls it.
pub fn say_hello(request: Message) -> (r: Result<Message, RpcError>)
    ensures
        outcome_model(r) == said(request@),
{
    match HelloRequest::from_message(request) {
        Some(hello) => {
            assert(conforms(request@, request_fields()));
            match say_hello_unary(hello) {
                Ok(response) => Ok(response.into_message()),
                Err(error) => Err(error),
            }
        },
        None => Err(
            RpcError::new(ErrorKind::InvalidArgument, "request is not a greeting request".to_owned()),
        ),
    }
}

} // verus!
