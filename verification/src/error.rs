//! The error taxonomy of the dispatcher and how it maps to an HTTP
//! status and a body.

use crate::codec::json::{object_text, write_object};
use crate::schema::{
    FieldDescriptor, FieldKind, FieldSpec, Message, MessageShape, Value, ValueSpec,
};
use vstd::prelude::*;

verus! {

/// What kind of failure an [`RpcError`] reports.
#[derive(Clone, Copy, Debug, PartialEq, Eq, Structural)]
pub enum ErrorKind {
    /// No method is registered at the path.
    NotFound,
    /// The content type is missing or names no known format.
    UnsupportedMediaType,
    /// The body is malformed or does not fit the request shape.
    InvalidArgument,
    /// Reserved: the caller did not say who it is.
    Unauthenticated,
    /// Reserved: the caller may not do this.
    PermissionDenied,
    /// A defect in a handler or in the dispatcher.
    Internal,
    /// A handler could not reach something it depends on.
    Unavailable,
    /// A kind from another taxonomy, which this one has no name for.
    Unrecognized,
}

/// The HTTP status of each kind. A kind without a name of its own is
/// answered as an internal error.
pub open spec fn status_of(kind: ErrorKind) -> u16 {
    match kind {
        ErrorKind::NotFound => 404,
        ErrorKind::UnsupportedMediaType => 415,
        ErrorKind::InvalidArgument => 400,
        ErrorKind::Unauthenticated => 401,
        ErrorKind::PermissionDenied => 403,
        ErrorKind::Internal => 500,
        ErrorKind::Unavailable => 503,
        ErrorKind::Unrecognized => 500,
    }
}

/// The name of each kind in an error body.
pub open spec fn code_of(kind: ErrorKind) -> Seq<char> {
    match kind {
        ErrorKind::NotFound => "NotFound"@,
        ErrorKind::UnsupportedMediaType => "UnsupportedMediaType"@,
        ErrorKind::InvalidArgument => "InvalidArgument"@,
        ErrorKind::Unauthenticated => "Unauthenticated"@,
        ErrorKind::PermissionDenied => "PermissionDenied"@,
        ErrorKind::Internal => "Internal"@,
        ErrorKind::Unavailable => "Unavailable"@,
        ErrorKind::Unrecognized => "Internal"@,
    }
}

impl ErrorKind {
    /// The HTTP status that answers an error of this kind.
    pub fn status(self) -> (status: u16)
        ensures
            status == status_of(self),
    {
        match self {
            ErrorKind::NotFound => 404,
            ErrorKind::UnsupportedMediaType => 415,
            ErrorKind::InvalidArgument => 400,
            ErrorKind::Unauthenticated => 401,
            ErrorKind::PermissionDenied => 403,
            ErrorKind::Internal => 500,
            ErrorKind::Unavailable => 503,
            ErrorKind::Unrecognized => 500,
        }
    }

    /// The name of this kind in an error body.
    pub fn code(self) -> (code: &'static str)
        ensures
            code@ == code_of(self),
    {
        match self {
            ErrorKind::NotFound => "NotFound",
            ErrorKind::UnsupportedMediaType => "UnsupportedMediaType",
            ErrorKind::InvalidArgument => "InvalidArgument",
            ErrorKind::Unauthenticated => "Unauthenticated",
            ErrorKind::PermissionDenied => "PermissionDenied",
            ErrorKind::Internal => "Internal",
            ErrorKind::Unavailable => "Unavailable",
            ErrorKind::Unrecognized => "Internal",
        }
    }
}

/// A structured detail that a handler may attach to an error. It travels
/// with the error and is not part of the error body.
#[derive(Clone, Debug, PartialEq, Eq)]
pub struct ErrorDetail {
    pub label: String,
    pub value: Vec<u8>,
}

/// Mathematical model of an [`ErrorDetail`].
pub struct DetailSpec {
    pub label: Seq<char>,
    pub value: Seq<u8>,
}

impl View for ErrorDetail {
    type V = DetailSpec;

    open spec fn view(&self) -> DetailSpec {
        DetailSpec { label: self.label@, value: self.value@ }
    }
}

/// A failure of one call: its kind, a message for the caller and an
/// optional detail.
#[derive(Clone, Debug, PartialEq, Eq)]
pub struct RpcError {
    pub kind: ErrorKind,
    pub message: String,
    pub details: Option<ErrorDetail>,
}

/// Mathematical model of an [`RpcError`].
pub struct RpcFault {
    pub kind: ErrorKind,
    pub message: Seq<char>,
    pub details: Option<DetailSpec>,
}

impl View for RpcError {
    type V = RpcFault;

    open spec fn view(&self) -> RpcFault {
        RpcFault {
            kind: self.kind,
            message: self.message@,
            details: match self.details {
                Some(detail) => Some(detail@),
                None => None,
            },
        }
    }
}

/// A fault of the given kind with a message and no detail.
pub open spec fn plain_fault(kind: ErrorKind, message: Seq<char>) -> RpcFault {
    RpcFault { kind, message, details: None }
}

impl RpcError {
    /// An error of the given kind with a message and no detail.
    pub fn new(kind: ErrorKind, message: String) -> (error: RpcError)
        ensures
            error@ == plain_fault(kind, message@),
    {
        RpcError { kind, message, details: None }
    }
}

/// The two members of an error body.
pub open spec fn error_fields() -> Seq<FieldSpec> {
    seq![
        FieldSpec { name: "code"@, kind: FieldKind::Text },
        FieldSpec { name: "message"@, kind: FieldKind::Text },
    ]
}

/// The body that reports an error: an object in text with the name of the
/// kind under `code` and the message under `message`.
pub open spec fn error_body(kind: ErrorKind, message: Seq<char>) -> Seq<u8> {
    object_text(error_fields(), seq![ValueSpec::Text(code_of(kind)), ValueSpec::Text(message)])
}

/// Maps an error to the HTTP status and the body that report it.
pub fn map_to_transport(error: &RpcError) -> (r: (u16, Vec<u8>))
    ensures
        r.0 == status_of(error.kind),
        r.1@ == error_body(error.kind, error.message@),
{
    let shape = MessageShape {
        name: "Error".to_owned(),
        fields: vec![
            FieldDescriptor { name: "code".to_owned(), kind: FieldKind::Text },
            FieldDescriptor { name: "message".to_owned(), kind: FieldKind::Text },
        ],
    };
    let message = Message {
        fields: vec![Value::Text(error.kind.code().to_owned()), Value::Text(error.message.clone())],
    };
    assert(shape@.fields =~= error_fields());
    assert(message@ =~= seq![
        ValueSpec::Text(code_of(error.kind)),
        ValueSpec::Text(error.message@),
    ]);
    let mut body: Vec<u8> = Vec::new();
    write_object(&mut body, &shape, &message);
    assert(Seq::<u8>::empty() + error_body(error.kind, error.message@) =~= error_body(
        error.kind,
        error.message@,
    ));
    (error.kind.status(), body)
}

} // verus!
