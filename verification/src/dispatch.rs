//! The dispatcher: from a raw request to a raw response, by way of the
//! routing table, the codec, the bound handler and the error mapper.
//!
//! One request passes through the stages received, routed, decoded,
//! invoked, encoded and responded, in this order, and leaves them for the
//! error response at the first failure. [`Dispatcher::begin`] covers the
//! stages before the handler and [`Dispatcher::finish`] those behind it, for
//! callers that run the handler themselves; [`Dispatcher::handle`] runs all
//! of them.

use crate::codec::binary::all_fit;
use crate::codec::{
    content_type_of, decode, decode_spec, encode, encode_spec, fault_text, lemma_decode_encode,
    ContentType, DecodeError, DecodeFault, EncodeError,
};
use crate::error::{
    error_body, map_to_transport, plain_fault, status_of, ErrorKind, RpcError, RpcFault,
};
use crate::registry::{
    outcome_of, position, registered, sealed_once, Registry, RegistryError, RegistryFault,
    RegistrySpec,
};
use crate::schema::{
    conforms, distinct_names, FieldSpec, Message, MethodDescriptor, ServiceDescriptor,
    ServiceSpec, ValueSpec,
};
use vstd::prelude::*;
use vstd::string::StringExecFns;
use vstd::utf8::encode_utf8;

verus! {

/// One header of a request.
#[derive(Clone, Debug, PartialEq, Eq)]
pub struct Header {
    pub name: String,
    pub value: String,
}

/// Mathematical model of a [`Header`].
pub struct HeaderSpec {
    pub name: Seq<char>,
    pub value: Seq<char>,
}

impl View for Header {
    type V = HeaderSpec;

    open spec fn view(&self) -> HeaderSpec {
        HeaderSpec { name: self.name@, value: self.value@ }
    }
}

/// What the dispatcher reads of an HTTP request.
#[derive(Clone, Debug, PartialEq, Eq)]
pub struct RawRequest {
    pub path: String,
    pub headers: Vec<Header>,
    pub body: Vec<u8>,
}

/// Mathematical model of a [`RawRequest`].
pub struct RequestSpec {
    pub path: Seq<char>,
    pub headers: Seq<HeaderSpec>,
    pub body: Seq<u8>,
}

impl View for RawRequest {
    type V = RequestSpec;

    open spec fn view(&self) -> RequestSpec {
        RequestSpec {
            path: self.path@,
            headers: self.headers@.map_values(|h: Header| h@),
            body: self.body@,
        }
    }
}

/// What the dispatcher answers: a status, the content type of the body,
/// and the body.
#[derive(Clone, Debug, PartialEq, Eq)]
pub struct RawResponse {
    pub status: u16,
    pub content_type: ContentType,
    pub body: Vec<u8>,
}

/// Mathematical model of a [`RawResponse`].
pub struct ResponseSpec {
    pub status: u16,
    pub content_type: ContentType,
    pub body: Seq<u8>,
}

impl View for RawResponse {
    type V = ResponseSpec;

    open spec fn view(&self) -> ResponseSpec {
        ResponseSpec { status: self.status, content_type: self.content_type, body: self.body@ }
    }
}

/// A request that was routed and decoded and waits for its handler.
#[derive(Clone, Debug, PartialEq, Eq)]
pub struct Call {
    /// The place of the method in the routing table.
    pub method: usize,
    /// The format of the request, in which the response will be written.
    pub content_type: ContentType,
    /// The decoded request.
    pub request: Message,
}

/// Mathematical model of a [`Call`].
pub struct CallSpec {
    pub method: int,
    pub content_type: ContentType,
    pub request: Seq<ValueSpec>,
}

impl View for Call {
    type V = CallSpec;

    open spec fn view(&self) -> CallSpec {
        CallSpec {
            method: self.method as int,
            content_type: self.content_type,
            request: self.request@,
        }
    }
}

/// An upper-case letter of ASCII as its lower-case letter, every other
/// byte as itself.
pub open spec fn fold_case(b: u8) -> u8 {
    if 0x41 <= b <= 0x5a {
        (b + 0x20) as u8
    } else {
        b
    }
}

/// Two byte strings are the same but for the case of ASCII letters.
pub open spec fn same_ignoring_case(a: Seq<u8>, b: Seq<u8>) -> bool {
    &&& a.len() == b.len()
    &&& forall|k: int| 0 <= k < a.len() ==> fold_case(#[trigger] a[k]) == fold_case(b[k])
}

/// A header name that, in whatever case, reads `content-type`.
pub open spec fn names_content_type(name: Seq<char>) -> bool {
    same_ignoring_case(encode_utf8(name), encode_utf8("content-type"@))
}

/// The value of the first header from `from` on that names the content type.
pub open spec fn content_type_header(headers: Seq<HeaderSpec>, from: int) -> Option<Seq<char>>
    decreases headers.len() - from,
{
    if from < 0 || from >= headers.len() {
        None
    } else if names_content_type(headers[from].name) {
        Some(headers[from].value)
    } else {
        content_type_header(headers, from + 1)
    }
}

/// The error for a path at which no method is served.
pub open spec fn not_found(path: Seq<char>) -> RpcFault {
    plain_fault(ErrorKind::NotFound, "no method is served at "@ + path)
}

/// The error for a request without a content type.
pub open spec fn missing_content_type() -> RpcFault {
    plain_fault(ErrorKind::UnsupportedMediaType, "content type is missing"@)
}

/// The error for a content type that names no known format.
pub open spec fn unknown_content_type(value: Seq<char>) -> RpcFault {
    plain_fault(ErrorKind::UnsupportedMediaType, "content type is not supported: "@ + value)
}

/// The error for a body that could not be decoded.
pub open spec fn invalid_argument(f: DecodeFault) -> RpcFault {
    plain_fault(ErrorKind::InvalidArgument, fault_text(f))
}

/// The error for a response that could not be encoded.
pub open spec fn encode_failure(error: EncodeError) -> RpcFault {
    plain_fault(
        ErrorKind::Internal,
        match error {
            EncodeError::ShapeMismatch => "response does not fit its shape"@,
        },
    )
}

/// The error for the place of a method that the routing table does not have.
pub open spec fn no_such_method() -> RpcFault {
    plain_fault(ErrorKind::Internal, "no method at this place"@)
}

/// From received to routed: the place of the method that is served at the
/// path of the request. A path that is not registered is not found.
pub open spec fn found(registry: RegistrySpec, path: Seq<char>) -> Result<int, RpcFault> {
    match position(registry.methods, path, 0) {
        Some(k) => Ok(k),
        None => Err(not_found(path)),
    }
}

/// The format that the headers of a request name. A content type that is
/// missing or names no known format is not supported.
pub open spec fn negotiated(headers: Seq<HeaderSpec>) -> Result<ContentType, RpcFault> {
    match content_type_header(headers, 0) {
        Some(value) => match content_type_of(value) {
            Some(content_type) => Ok(content_type),
            None => Err(unknown_content_type(value)),
        },
        None => Err(missing_content_type()),
    }
}

/// From routed to decoded: the request that a body holds. A body that
/// does not decode into the request shape is an invalid argument.
pub open spec fn request_of(fields: Seq<FieldSpec>, content_type: ContentType, body: Seq<u8>)
    -> Result<Seq<ValueSpec>, RpcFault> {
    match decode_spec(content_type, body, fields) {
        Ok(values) => Ok(values),
        Err(f) => Err(invalid_argument(f)),
    }
}

/// The stages before the handler, in their order: the path is looked up,
/// then the content type is read, then the body is decoded. The first
/// failure ends them.
pub open spec fn routed(registry: RegistrySpec, request: RequestSpec) -> Result<CallSpec, RpcFault> {
    match found(registry, request.path) {
        Ok(k) => match negotiated(request.headers) {
            Ok(content_type) => match request_of(
                registry.methods[k].request.fields,
                content_type,
                request.body,
            ) {
                Ok(values) => Ok(CallSpec { method: k, content_type, request: values }),
                Err(fault) => Err(fault),
            },
            Err(fault) => Err(fault),
        },
        Err(fault) => Err(fault),
    }
}

/// The response that reports an error: the status of its kind and an
/// error body, which is always text.
pub open spec fn error_reply(fault: RpcFault) -> ResponseSpec {
    ResponseSpec {
        status: status_of(fault.kind),
        content_type: ContentType::Json,
        body: error_body(fault.kind, fault.message),
    }
}

/// The stages behind the handler. An error of the handler is reported as
/// it is. A response is encoded in the format of the request and sent with
/// status 200; one that cannot be encoded is an internal error.
pub open spec fn reply(
    fields: Seq<FieldSpec>,
    content_type: ContentType,
    outcome: Result<Seq<ValueSpec>, RpcFault>,
) -> ResponseSpec {
    match outcome {
        Ok(values) => match encode_spec(content_type, fields, values) {
            Ok(body) => ResponseSpec { status: 200, content_type, body },
            Err(error) => error_reply(encode_failure(error)),
        },
        Err(fault) => error_reply(fault),
    }
}

/// The response to a call of the method at the place `method`.
pub open spec fn finished(
    registry: RegistrySpec,
    method: int,
    content_type: ContentType,
    outcome: Result<Seq<ValueSpec>, RpcFault>,
) -> ResponseSpec {
    if 0 <= method < registry.methods.len() {
        reply(registry.methods[method].response.fields, content_type, outcome)
    } else {
        error_reply(no_such_method())
    }
}

/// What the outcome of a handler stands for.
pub open spec fn outcome_model(outcome: Result<Message, RpcError>) -> Result<
    Seq<ValueSpec>,
    RpcFault,
> {
    match outcome {
        Ok(message) => Ok(message@),
        Err(error) => Err(error@),
    }
}

/// What the outcome of the stages before the handler stands for.
pub open spec fn begun(r: Result<Call, RpcError>) -> Result<CallSpec, RpcFault> {
    match r {
        Ok(call) => Ok(call@),
        Err(error) => Err(error@),
    }
}

/// An upper-case letter of ASCII as its lower-case letter.
fn fold(b: u8) -> (folded: u8)
    ensures
        folded == fold_case(b),
{
    if 0x41 <= b && b <= 0x5a {
        b + 0x20
    } else {
        b
    }
}

/// Tells whether two byte strings are the same but for the case of letters.
fn matches_ignoring_case(a: &[u8], b: &[u8]) -> (same: bool)
    ensures
        same == same_ignoring_case(a@, b@),
{
    if a.len() != b.len() {
        return false;
    }
    let mut k: usize = 0;
    while k < a.len()
        invariant
            k <= a.len(),
            a.len() == b.len(),
            forall|j: int| 0 <= j < k ==> fold_case(#[trigger] a@[j]) == fold_case(b@[j]),
        decreases a.len() - k,
    {
        if fold(a[k]) != fold(b[k]) {
            return false;
        }
        k += 1;
    }
    true
}

/// Finds the value of the content type header.
fn find_content_type<'a>(headers: &'a Vec<Header>) -> (found: Option<&'a str>)
    ensures
        match content_type_header(headers@.map_values(|h: Header| h@), 0) {
            Some(value) => found matches Some(text) && text@ == value,
            None => found.is_none(),
        },
{
    let ghost models = headers@.map_values(|h: Header| h@);
    let mut k: usize = 0;
    while k < headers.len()
        invariant
            k <= headers.len(),
            models == headers@.map_values(|h: Header| h@),
            content_type_header(models, 0) == content_type_header(models, k as int),
        decreases headers.len() - k,
    {
        assert(models[k as int] == headers@[k as int]@);
        if matches_ignoring_case(headers[k].name.as_str().as_bytes(), "content-type".as_bytes()) {
            return Some(headers[k].value.as_str());
        }
        k += 1;
    }
    None
}

/// The error for a path at which no method is served.
fn not_found_error(path: &str) -> (error: RpcError)
    ensures
        error@ == not_found(path@),
{
    let mut message = "no method is served at ".to_owned();
    message.append(path);
    RpcError::new(ErrorKind::NotFound, message)
}

/// The error for a request without a content type.
fn missing_content_type_error() -> (error: RpcError)
    ensures
        error@ == missing_content_type(),
{
    RpcError::new(ErrorKind::UnsupportedMediaType, "content type is missing".to_owned())
}

/// The error for a content type that names no known format.
fn unknown_content_type_error(value: &str) -> (error: RpcError)
    ensures
        error@ == unknown_content_type(value@),
{
    let mut message = "content type is not supported: ".to_owned();
    message.append(value);
    RpcError::new(ErrorKind::UnsupportedMediaType, message)
}

/// The error for a body that could not be decoded.
fn invalid_argument_error(error: &DecodeError) -> (e: RpcError)
    ensures
        e@ == invalid_argument(error@),
{
    RpcError::new(ErrorKind::InvalidArgument, error.describe())
}

/// The error for a response that could not be encoded.
fn encode_failure_error(error: EncodeError) -> (e: RpcError)
    ensures
        e@ == encode_failure(error),
{
    let message: &'static str = match error {
        EncodeError::ShapeMismatch => "response does not fit its shape",
    };
    RpcError::new(ErrorKind::Internal, message.to_owned())
}

/// What the outcome of reading the content type stands for.
pub open spec fn negotiation(r: Result<ContentType, RpcError>) -> Result<ContentType, RpcFault> {
    match r {
        Ok(content_type) => Ok(content_type),
        Err(error) => Err(error@),
    }
}

/// Reads the format of a request from its headers.
pub fn negotiate(request: &RawRequest) -> (r: Result<ContentType, RpcError>)
    ensures
        negotiation(r) == negotiated(request@.headers),
{
    match find_content_type(&request.headers) {
        Some(value) => match ContentType::parse(value) {
            Some(content_type) => Ok(content_type),
            None => Err(unknown_content_type_error(value)),
        },
        None => Err(missing_content_type_error()),
    }
}

/// Decodes the body of a request for a method.
pub fn decode_request(method: &MethodDescriptor, content_type: ContentType, body: &[u8]) -> (r:
    Result<Message, RpcError>)
    ensures
        outcome_model(r) == request_of(method@.request.fields, content_type, body@),
        r matches Ok(message) ==> conforms(message@, method@.request.fields),
{
    match decode(content_type, body, method.request()) {
        Ok(message) => Ok(message),
        Err(error) => Err(invalid_argument_error(&error)),
    }
}

/// The response that reports an error.
pub fn error_response(error: &RpcError) -> (response: RawResponse)
    ensures
        response@ == error_reply(error@),
{
    let (status, body) = map_to_transport(error);
    RawResponse { status, content_type: ContentType::Json, body }
}

/// Encodes the outcome of a handler for a method whose responses have the
/// shape of `method`.
pub fn respond(
    method: &MethodDescriptor,
    content_type: ContentType,
    outcome: Result<Message, RpcError>,
) -> (response: RawResponse)
    ensures
        response@ == reply(method@.response.fields, content_type, outcome_model(outcome)),
{
    match outcome {
        Ok(message) => match encode(content_type, method.response(), &message) {
            Ok(body) => RawResponse { status: 200, content_type, body },
            Err(error) => error_response(&encode_failure_error(error)),
        },
        Err(error) => error_response(&error),
    }
}

/// One method together with the handler that serves it.
pub struct MethodBinding<'a, H> {
    pub descriptor: &'a MethodDescriptor,
    pub handler: &'a H,
}

impl<'a, H: Fn(Message) -> Result<Message, RpcError>> MethodBinding<'a, H> {
    /// Runs the handler on a request, once.
    pub fn invoke(&self, request: Message) -> (outcome: Result<Message, RpcError>)
        requires
            call_requires(*self.handler, (request,)),
        ensures
            call_ensures(*self.handler, (request,), outcome),
    {
        (self.handler)(request)
    }
}

/// Mathematical model of a [`RoutingTable`]: the registry, and the handlers
/// in the order of the methods they serve.
pub struct TableSpec<H> {
    pub registry: RegistrySpec,
    pub handlers: Seq<H>,
}

impl<H> TableSpec<H> {
    /// The registry is well formed and every method has its handler.
    pub open spec fn well_formed(self) -> bool {
        &&& self.registry.well_formed()
        &&& self.handlers.len() == self.registry.methods.len()
    }
}

/// The table after a service asked to be bound with its handlers, and what
/// it was told. A sealed table takes nothing; a service must bring one
/// handler for each method; otherwise the registry decides, and the
/// handlers of a service that it takes are added behind those that exist.
pub open spec fn bound<H>(before: TableSpec<H>, service: ServiceSpec, handlers: Seq<H>) -> (
    TableSpec<H>,
    Result<(), RegistryFault>,
) {
    if before.registry.sealed {
        (before, Err(RegistryFault::Sealed))
    } else if handlers.len() != service.methods.len() {
        (before, Err(RegistryFault::HandlerMismatch))
    } else {
        match registered(before.registry, service).1 {
            Ok(()) => (
                TableSpec {
                    registry: registered(before.registry, service).0,
                    handlers: before.handlers + handlers,
                },
                Ok(()),
            ),
            Err(fault) => (before, Err(fault)),
        }
    }
}

/// The routing table: for each path one method and the handler bound to it.
pub struct RoutingTable<H> {
    registry: Registry,
    handlers: Vec<H>,
}

impl<H> View for RoutingTable<H> {
    type V = TableSpec<H>;

    closed spec fn view(&self) -> TableSpec<H> {
        TableSpec { registry: self.registry@, handlers: self.handlers@ }
    }
}

impl<H> RoutingTable<H> {
    #[verifier::type_invariant]
    spec fn every_method_is_bound(self) -> bool {
        self@.well_formed()
    }

    /// An empty table that is open for registration.
    pub fn new() -> (table: RoutingTable<H>)
        ensures
            table@.registry == (RegistrySpec { methods: Seq::empty(), sealed: false }),
            table@.handlers == Seq::<H>::empty(),
            table@.well_formed(),
    {
        RoutingTable { registry: Registry::new(), handlers: Vec::new() }
    }

    /// Binds all methods of a service to their handlers, or none of them.
    pub fn bind(&mut self, service: ServiceDescriptor, handlers: Vec<H>) -> (r: Result<
        (),
        RegistryError,
    >)
        ensures
            (final(self)@, outcome_of(r)) == bound(old(self)@, service@, handlers@),
            final(self)@.well_formed(),
    {
        proof {
            use_type_invariant(&*self);
        }
        if self.registry.is_sealed() {
            return Err(RegistryError::Sealed);
        }
        if handlers.len() != service.methods().len() {
            return Err(RegistryError::HandlerMismatch);
        }
        let mut taken: RoutingTable<H> = RoutingTable::new();
        core::mem::swap(self, &mut taken);
        let RoutingTable { registry: mut registry, handlers: mut bound_handlers } = taken;
        let mut handlers = handlers;
        let r = registry.register(service);
        if r.is_ok() {
            bound_handlers.append(&mut handlers);
        }
        *self = RoutingTable { registry, handlers: bound_handlers };
        r
    }

    /// Closes the table for registration. Fails where it was closed before.
    pub fn seal(&mut self) -> (r: Result<(), RegistryError>)
        ensures
            final(self)@.handlers == old(self)@.handlers,
            (final(self)@.registry, outcome_of(r)) == sealed_once(old(self)@.registry),
            final(self)@.well_formed(),
    {
        proof {
            use_type_invariant(&*self);
        }
        let mut taken: RoutingTable<H> = RoutingTable::new();
        core::mem::swap(self, &mut taken);
        let RoutingTable { registry: mut registry, handlers } = taken;
        let r = registry.seal();
        *self = RoutingTable { registry, handlers };
        r
    }

    /// The registry of the methods in the table.
    pub fn registry(&self) -> (registry: &Registry)
        ensures
            registry@ == self@.registry,
            self@.well_formed(),
    {
        proof {
            use_type_invariant(self);
        }
        &self.registry
    }

    /// The handler at a place, if the place is taken.
    pub fn handler(&self, index: usize) -> (handler: Option<&H>)
        ensures
            self@.well_formed(),
            match handler {
                Some(h) => index < self@.handlers.len() && *h == self@.handlers[index as int],
                None => index >= self@.handlers.len(),
            },
    {
        proof {
            use_type_invariant(self);
        }
        if index < self.handlers.len() {
            Some(&self.handlers[index])
        } else {
            None
        }
    }

    /// The method at a place and its handler, if the place is taken.
    pub fn binding<'a>(&'a self, index: usize) -> (found: Option<MethodBinding<'a, H>>)
        ensures
            self@.well_formed(),
            match found {
                Some(binding) => index < self@.handlers.len() && binding.descriptor@
                    == self@.registry.methods[index as int] && *binding.handler
                    == self@.handlers[index as int],
                None => index >= self@.handlers.len(),
            },
    {
        proof {
            use_type_invariant(self);
        }
        match self.registry.get(index) {
            Some(descriptor) => Some(
                MethodBinding { descriptor, handler: &self.handlers[index] },
            ),
            None => None,
        }
    }

    /// The method that is served at `path` and its handler, if there is one.
    pub fn lookup<'a>(&'a self, path: &str) -> (found: Option<MethodBinding<'a, H>>)
        ensures
            self@.well_formed(),
            match position(self@.registry.methods, path@, 0) {
                Some(k) => found matches Some(binding) && binding.descriptor@
                    == self@.registry.methods[k] && *binding.handler == self@.handlers[k],
                None => found.is_none(),
            },
    {
        match self.registry().index_of(path) {
            Some(k) => self.binding(k),
            None => None,
        }
    }
}

/// Collects services and their handlers until it is sealed, and then
/// gives out the dispatcher that serves them.
pub struct DispatcherBuilder<H> {
    table: RoutingTable<H>,
}

impl<H> View for DispatcherBuilder<H> {
    type V = TableSpec<H>;

    closed spec fn view(&self) -> TableSpec<H> {
        self.table@
    }
}

/// The table that a dispatcher serves once its builder is sealed.
pub open spec fn served<H>(before: TableSpec<H>) -> TableSpec<H> {
    TableSpec {
        registry: RegistrySpec { methods: before.registry.methods, sealed: true },
        handlers: before.handlers,
    }
}

/// What is left in a builder that gave its table to a dispatcher.
pub open spec fn spent<H>() -> TableSpec<H> {
    TableSpec {
        registry: RegistrySpec { methods: Seq::empty(), sealed: true },
        handlers: Seq::empty(),
    }
}

/// What the outcome of sealing a builder stands for.
pub open spec fn sealing<H>(r: Result<Dispatcher<H>, RegistryError>) -> Result<
    TableSpec<H>,
    RegistryFault,
> {
    match r {
        Ok(dispatcher) => Ok(dispatcher@),
        Err(error) => Err(error@),
    }
}

impl<H> DispatcherBuilder<H> {
    /// A builder without services.
    pub fn new() -> (builder: DispatcherBuilder<H>)
        ensures
            builder@.registry == (RegistrySpec { methods: Seq::empty(), sealed: false }),
            builder@.handlers == Seq::<H>::empty(),
            builder@.well_formed(),
    {
        DispatcherBuilder { table: RoutingTable::new() }
    }

    /// Registers a service with one handler for each of its methods, in the
    /// order of the methods. Registers all methods or none.
    pub fn register_service(&mut self, service: ServiceDescriptor, handlers: Vec<H>) -> (r: Result<
        (),
        RegistryError,
    >)
        ensures
            (final(self)@, outcome_of(r)) == bound(old(self)@, service@, handlers@),
            final(self)@.well_formed(),
    {
        self.table.bind(service, handlers)
    }

    /// Tells whether the builder was sealed.
    pub fn is_sealed(&self) -> (sealed: bool)
        ensures
            sealed == self@.registry.sealed,
    {
        self.table.registry().is_sealed()
    }

    /// Seals the builder and gives out the dispatcher for what was
    /// registered. Fails where the builder was sealed before. A sealed
    /// builder holds nothing, stays sealed and takes no more services.
    pub fn seal(&mut self) -> (r: Result<Dispatcher<H>, RegistryError>)
        ensures
            sealing(r) == if old(self)@.registry.sealed {
                Err::<TableSpec<H>, RegistryFault>(RegistryFault::AlreadySealed)
            } else {
                Ok::<TableSpec<H>, RegistryFault>(served(old(self)@))
            },
            final(self)@ == if old(self)@.registry.sealed {
                old(self)@
            } else {
                spent::<H>()
            },
            final(self)@.registry.sealed,
            final(self)@.well_formed(),
    {
        if self.table.registry().is_sealed() {
            return Err(RegistryError::AlreadySealed);
        }
        let mut table: RoutingTable<H> = RoutingTable::new();
        let _ = table.seal();
        core::mem::swap(&mut self.table, &mut table);
        let _ = table.seal();
        Ok(Dispatcher { table })
    }
}

/// Serves the methods of a sealed routing table.
pub struct Dispatcher<H> {
    table: RoutingTable<H>,
}

impl<H> View for Dispatcher<H> {
    type V = TableSpec<H>;

    closed spec fn view(&self) -> TableSpec<H> {
        self.table@
    }
}

/// Every handler can be called on every request that fits the request
/// shape of its method.
pub open spec fn handlers_accept<H: Fn(Message) -> Result<Message, RpcError>>(
    table: TableSpec<H>,
) -> bool {
    forall|k: int, request: Message|
        0 <= k < table.handlers.len() && k < table.registry.methods.len() && conforms(
            request@,
            table.registry.methods[k].request.fields,
        ) ==> #[trigger] call_requires(table.handlers[k], (request,))
}

/// The response answers the request: with the error of the stages before
/// the handler where they fail, and otherwise with what the stages behind
/// the handler make of an outcome of the handler on the decoded request.
pub open spec fn answers<H: Fn(Message) -> Result<Message, RpcError>>(
    table: TableSpec<H>,
    request: RequestSpec,
    response: ResponseSpec,
) -> bool {
    match routed(table.registry, request) {
        Ok(call) => exists|sent: Message, outcome: Result<Message, RpcError>|
            {
                &&& sent@ == call.request
                &&& #[trigger] call_ensures(table.handlers[call.method], (sent,), outcome)
                &&& response == finished(
                    table.registry,
                    call.method,
                    call.content_type,
                    outcome_model(outcome),
                )
            },
        Err(fault) => response == error_reply(fault),
    }
}

impl<H> Dispatcher<H> {
    #[verifier::type_invariant]
    spec fn is_sealed(self) -> bool {
        self@.registry.sealed
    }

    /// The routing table that the dispatcher serves.
    pub fn table(&self) -> (table: &RoutingTable<H>)
        ensures
            table@ == self@,
            self@.well_formed(),
            self@.registry.sealed,
    {
        proof {
            use_type_invariant(self);
            use_type_invariant(&self.table);
        }
        &self.table
    }

    /// Takes a request through the stages before the handler: finds the
    /// method at its path, reads its content type and decodes its body.
    pub fn begin(&self, request: &RawRequest) -> (r: Result<Call, RpcError>)
        ensures
            begun(r) == routed(self@.registry, request@),
            self@.well_formed(),
            r matches Ok(call) ==> call.method < self@.handlers.len() && conforms(
                call.request@,
                self@.registry.methods[call.method as int].request.fields,
            ),
    {
        let registry = self.table.registry();
        let index: usize = match registry.index_of(request.path.as_str()) {
            Some(k) => k,
            None => { return Err(not_found_error(request.path.as_str())); },
        };
        let method = match registry.get(index) {
            Some(method) => method,
            None => { return Err(not_found_error(request.path.as_str())); },
        };
        let content_type = match negotiate(request) {
            Ok(content_type) => content_type,
            Err(error) => { return Err(error); },
        };
        match decode_request(method, content_type, request.body.as_slice()) {
            Ok(message) => Ok(Call { method: index, content_type, request: message }),
            Err(error) => Err(error),
        }
    }

    /// Takes the outcome of the handler through the stages behind it:
    /// encodes a response in the format of the request, or reports the
    /// error.
    pub fn finish(
        &self,
        method: usize,
        content_type: ContentType,
        outcome: Result<Message, RpcError>,
    ) -> (response: RawResponse)
        ensures
            response@ == finished(
                self@.registry,
                method as int,
                content_type,
                outcome_model(outcome),
            ),
    {
        match self.table.registry().get(method) {
            Some(descriptor) => respond(descriptor, content_type, outcome),
            None => error_response(
                &RpcError::new(ErrorKind::Internal, "no method at this place".to_owned()),
            ),
        }
    }
}

impl<H: Fn(Message) -> Result<Message, RpcError>> Dispatcher<H> {
    /// Answers one request: routes it, decodes it, runs the handler once,
    /// and encodes what the handler returned. The dispatcher itself is not
    /// changed by a request.
    pub fn handle(&self, request: &RawRequest) -> (response: RawResponse)
        requires
            handlers_accept(self@),
        ensures
            answers(self@, request@, response@),
    {
        match self.begin(request) {
            Ok(call) => {
                let Call { method, content_type, request: message } = call;
                let ghost sent = message;
                match self.table.binding(method) {
                    Some(binding) => {
                        let outcome = binding.invoke(message);
                        assert(call_ensures(self@.handlers[method as int], (sent,), outcome));
                        respond(binding.descriptor, content_type, outcome)
                    },
                    None => error_response(
                        &RpcError::new(ErrorKind::Internal, "no method at this place".to_owned()),
                    ),
                }
            },
            Err(error) => error_response(&error),
        }
    }
}

/// A path at which no method is served is answered with status 404 and an
/// error body of kind `NotFound`, whatever else the request holds.
pub proof fn lemma_unknown_path(registry: RegistrySpec, request: RequestSpec)
    requires
        position(registry.methods, request.path, 0).is_none(),
    ensures
        routed(registry, request) == Err::<CallSpec, RpcFault>(not_found(request.path)),
        error_reply(not_found(request.path)).status == 404,
        error_reply(not_found(request.path)).body == error_body(
            ErrorKind::NotFound,
            not_found(request.path).message,
        ),
{
}

/// A request for a registered method that has no content type header, or
/// one that names no known format, is answered with status 415.
pub proof fn lemma_unsupported_content_type(registry: RegistrySpec, request: RequestSpec)
    requires
        position(registry.methods, request.path, 0).is_some(),
        content_type_header(request.headers, 0) matches Some(value) ==> content_type_of(
            value,
        ).is_none(),
    ensures
        routed(registry, request) matches Err(fault) && fault.kind
            == ErrorKind::UnsupportedMediaType && error_reply(fault).status == 415,
{
}

/// A request for a registered method in a known format whose body does
/// not decode into the request shape is answered with status 400 and an
/// error of kind `InvalidArgument`.
pub proof fn lemma_undecodable_body(
    registry: RegistrySpec,
    request: RequestSpec,
    k: int,
    content_type: ContentType,
)
    requires
        position(registry.methods, request.path, 0) == Some(k),
        content_type_header(request.headers, 0) matches Some(value) && content_type_of(value)
            == Some(content_type),
        decode_spec(content_type, request.body, registry.methods[k].request.fields).is_err(),
    ensures
        routed(registry, request) matches Err(fault) && fault.kind == ErrorKind::InvalidArgument
            && error_reply(fault).status == 400,
{
}

/// A response that the handler returned and that fits the response shape
/// is sent with status 200 in the format of the request.
pub proof fn lemma_success_mirrors_request(
    fields: Seq<FieldSpec>,
    content_type: ContentType,
    values: Seq<ValueSpec>,
)
    requires
        conforms(values, fields),
    ensures
        reply(fields, content_type, Ok(values)).status == 200,
        reply(fields, content_type, Ok(values)).content_type == content_type,
        Ok::<Seq<u8>, EncodeError>(reply(fields, content_type, Ok(values)).body) == encode_spec(
            content_type,
            fields,
            values,
        ),
{
}

/// What the dispatcher sends for a response of the handler, a client that
/// knows the response shape reads back as what the handler returned: for
/// every response that fits a shape with distinct field names, and in the
/// binary layout for every text whose length fits in eight bytes.
pub proof fn lemma_success_is_read_back(
    fields: Seq<FieldSpec>,
    content_type: ContentType,
    values: Seq<ValueSpec>,
)
    requires
        distinct_names(fields),
        conforms(values, fields),
        content_type == ContentType::Proto ==> all_fit(values),
    ensures
        reply(fields, content_type, Ok(values)).status == 200,
        decode_spec(
            reply(fields, content_type, Ok(values)).content_type,
            reply(fields, content_type, Ok(values)).body,
            fields,
        ) == Ok::<Seq<ValueSpec>, DecodeFault>(values),
{
    lemma_decode_encode(content_type, fields, values);
}

} // verus!
