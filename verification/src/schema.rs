//! Runtime descriptions of messages, methods and services, and the typed
//! values that travel through the dispatcher.

use crate::wire::same_text;
use vstd::prelude::*;
use vstd::string::StringExecFns;

verus! {

/// The scalar type of one message field.
#[derive(Clone, Copy, Debug, PartialEq, Eq, Structural)]
pub enum FieldKind {
    Text,
    Integer,
    Boolean,
}

/// One named, typed field of a message shape.
#[derive(Clone, Debug, PartialEq, Eq)]
pub struct FieldDescriptor {
    pub name: String,
    pub kind: FieldKind,
}

/// Mathematical model of a [`FieldDescriptor`].
pub struct FieldSpec {
    pub name: Seq<char>,
    pub kind: FieldKind,
}

impl View for FieldDescriptor {
    type V = FieldSpec;

    open spec fn view(&self) -> FieldSpec {
        FieldSpec { name: self.name@, kind: self.kind }
    }
}

/// The shape of a message: a type identifier and its fields in wire order.
#[derive(Clone, Debug, PartialEq, Eq)]
pub struct MessageShape {
    pub name: String,
    pub fields: Vec<FieldDescriptor>,
}

/// Mathematical model of a [`MessageShape`].
pub struct ShapeSpec {
    pub name: Seq<char>,
    pub fields: Seq<FieldSpec>,
}

impl View for MessageShape {
    type V = ShapeSpec;

    open spec fn view(&self) -> ShapeSpec {
        ShapeSpec { name: self.name@, fields: self.fields@.map_values(|f: FieldDescriptor| f@) }
    }
}

impl FieldDescriptor {
    /// A field called `name` of the given kind.
    pub fn new(name: &str, kind: FieldKind) -> (field: FieldDescriptor)
        ensures
            field@ == (FieldSpec { name: name@, kind }),
    {
        FieldDescriptor { name: name.to_owned(), kind }
    }
}

impl MessageShape {
    /// A shape called `name` with the given fields, in their order.
    pub fn new(name: &str, fields: Vec<FieldDescriptor>) -> (shape: MessageShape)
        ensures
            shape@ == (ShapeSpec {
                name: name@,
                fields: fields@.map_values(|f: FieldDescriptor| f@),
            }),
    {
        MessageShape { name: name.to_owned(), fields }
    }

    /// Tells whether no two fields of the shape share a name, as the text
    /// format needs it to tell the fields apart.
    pub fn has_distinct_names(&self) -> (distinct: bool)
        ensures
            distinct == distinct_names(self@.fields),
    {
        let ghost fields = self@.fields;
        let mut j: usize = 0;
        while j < self.fields.len()
            invariant
                j <= self.fields.len(),
                fields == self@.fields,
                forall|a: int, b: int|
                    0 <= a < b < j ==> (#[trigger] fields[a]).name != (#[trigger] fields[b]).name,
            decreases self.fields.len() - j,
        {
            let mut i: usize = 0;
            while i < j
                invariant
                    i <= j < self.fields.len(),
                    fields == self@.fields,
                    forall|a: int| 0 <= a < i ==> (#[trigger] fields[a]).name != fields[j as int].name,
                decreases j - i,
            {
                assert(fields[i as int] == self.fields@[i as int]@);
                assert(fields[j as int] == self.fields@[j as int]@);
                if same_text(self.fields[i].name.as_str(), self.fields[j].name.as_str()) {
                    return false;
                }
                i += 1;
            }
            j += 1;
        }
        true
    }
}

/// A shape is well formed when no two of its fields share a name.
pub open spec fn distinct_names(fields: Seq<FieldSpec>) -> bool {
    forall|i: int, j: int|
        0 <= i < j < fields.len() ==> (#[trigger] fields[i]).name != (#[trigger] fields[j]).name
}

/// One field value of a message.
#[derive(Clone, Debug, PartialEq, Eq)]
pub enum Value {
    Text(String),
    Integer(i64),
    Boolean(bool),
}

/// Mathematical model of a [`Value`].
pub enum ValueSpec {
    Text(Seq<char>),
    Integer(i64),
    Boolean(bool),
}

impl ValueSpec {
    pub open spec fn kind(self) -> FieldKind {
        match self {
            ValueSpec::Text(_) => FieldKind::Text,
            ValueSpec::Integer(_) => FieldKind::Integer,
            ValueSpec::Boolean(_) => FieldKind::Boolean,
        }
    }
}

impl View for Value {
    type V = ValueSpec;

    open spec fn view(&self) -> ValueSpec {
        match self {
            Value::Text(s) => ValueSpec::Text(s@),
            Value::Integer(n) => ValueSpec::Integer(*n),
            Value::Boolean(b) => ValueSpec::Boolean(*b),
        }
    }
}

impl Value {
    /// A text value with the characters of `text`.
    pub fn text(text: &str) -> (value: Value)
        ensures
            value@ == ValueSpec::Text(text@),
    {
        Value::Text(text.to_owned())
    }

    /// A copy of the value.
    pub fn copy(&self) -> (copy: Value)
        ensures
            copy@ == self@,
    {
        match self {
            Value::Text(text) => Value::Text(text.clone()),
            Value::Integer(n) => Value::Integer(*n),
            Value::Boolean(b) => Value::Boolean(*b),
        }
    }

    /// The text, where the value is one.
    pub fn as_text(&self) -> (text: Option<&str>)
        ensures
            match text {
                Some(s) => self@ == ValueSpec::Text(s@),
                None => self@.kind() != FieldKind::Text,
            },
    {
        match self {
            Value::Text(text) => Some(text.as_str()),
            _ => None,
        }
    }

    /// The integer, where the value is one.
    pub fn as_integer(&self) -> (integer: Option<i64>)
        ensures
            match integer {
                Some(n) => self@ == ValueSpec::Integer(n),
                None => self@.kind() != FieldKind::Integer,
            },
    {
        match self {
            Value::Integer(n) => Some(*n),
            _ => None,
        }
    }

    /// The boolean, where the value is one.
    pub fn as_boolean(&self) -> (boolean: Option<bool>)
        ensures
            match boolean {
                Some(b) => self@ == ValueSpec::Boolean(b),
                None => self@.kind() != FieldKind::Boolean,
            },
    {
        match self {
            Value::Boolean(b) => Some(*b),
            _ => None,
        }
    }

    /// The scalar type this value belongs to.
    pub fn kind(&self) -> (kind: FieldKind)
        ensures
            kind == self@.kind(),
    {
        match self {
            Value::Text(_) => FieldKind::Text,
            Value::Integer(_) => FieldKind::Integer,
            Value::Boolean(_) => FieldKind::Boolean,
        }
    }
}

/// A typed message: one value per field, in the order of its shape.
#[derive(Clone, Debug, PartialEq, Eq)]
pub struct Message {
    pub fields: Vec<Value>,
}

impl View for Message {
    type V = Seq<ValueSpec>;

    open spec fn view(&self) -> Seq<ValueSpec> {
        self.fields@.map_values(|v: Value| v@)
    }
}

/// A sequence of values fits a sequence of fields when both have the same
/// length and every value has the kind of the field at its position.
pub open spec fn conforms(values: Seq<ValueSpec>, fields: Seq<FieldSpec>) -> bool {
    &&& values.len() == fields.len()
    &&& forall|i: int| 0 <= i < values.len() ==> (#[trigger] values[i]).kind() == fields[i].kind
}

impl Message {
    /// A message of the given values, in their order.
    pub fn new(fields: Vec<Value>) -> (message: Message)
        ensures
            message@ == fields@.map_values(|v: Value| v@),
    {
        Message { fields }
    }

    /// The value at a place, if the message has one there.
    pub fn get(&self, index: usize) -> (value: Option<&Value>)
        ensures
            match value {
                Some(v) => index < self@.len() && v@ == self@[index as int],
                None => index >= self@.len(),
            },
    {
        if index < self.fields.len() {
            Some(&self.fields[index])
        } else {
            None
        }
    }

    /// Tells whether this message has exactly the fields that `shape` asks for.
    pub fn conforms_to(&self, shape: &MessageShape) -> (ok: bool)
        ensures
            ok == conforms(self@, shape@.fields),
    {
        if self.fields.len() != shape.fields.len() {
            return false;
        }
        let mut i: usize = 0;
        while i < self.fields.len()
            invariant
                i <= self.fields.len(),
                self.fields.len() == shape.fields.len(),
                forall|k: int| 0 <= k < i ==> (#[trigger] self@[k]).kind() == shape@.fields[k].kind,
            decreases self.fields.len() - i,
        {
            if self.fields[i].kind() != shape.fields[i].kind {
                assert(self@[i as int].kind() != shape@.fields[i as int].kind);
                return false;
            }
            i += 1;
        }
        true
    }
}

/// The path at which a method is served: a slash, the name of its service,
/// a slash, its own name.
pub open spec fn derived_path(service: Seq<char>, method: Seq<char>) -> Seq<char> {
    seq!['/'] + service + seq!['/'] + method
}

/// Derives the path at which a method is served.
pub fn derive_path(service: &str, method: &str) -> (path: String)
    ensures
        path@ == derived_path(service@, method@),
{
    proof {
        reveal_strlit("/");
    }
    assert("/"@ =~= seq!['/']);
    let mut path = "/".to_owned();
    path.append(service);
    path.append("/");
    path.append(method);
    path
}

/// One method of a service: its name, the shapes of its request and of its
/// response, and the path at which it is served.
#[derive(Debug, PartialEq, Eq)]
pub struct MethodDescriptor {
    pub(crate) service: String,
    pub(crate) name: String,
    pub(crate) request: MessageShape,
    pub(crate) response: MessageShape,
    pub(crate) path: String,
}

/// Mathematical model of a [`MethodDescriptor`].
pub struct MethodSpec {
    pub service: Seq<char>,
    pub name: Seq<char>,
    pub request: ShapeSpec,
    pub response: ShapeSpec,
    pub path: Seq<char>,
}

impl MethodSpec {
    /// The path of a method is the one derived from its names.
    pub open spec fn well_formed(self) -> bool {
        self.path == derived_path(self.service, self.name)
    }
}

impl View for MethodDescriptor {
    type V = MethodSpec;

    closed spec fn view(&self) -> MethodSpec {
        MethodSpec {
            service: self.service@,
            name: self.name@,
            request: self.request@,
            response: self.response@,
            path: self.path@,
        }
    }
}

impl MethodDescriptor {
    #[verifier::type_invariant]
    spec fn path_is_derived(self) -> bool {
        self@.well_formed()
    }

    /// Describes the method `name` of the service `service`.
    pub fn new(service: &str, name: &str, request: MessageShape, response: MessageShape) -> (method:
        MethodDescriptor)
        ensures
            method@ == (MethodSpec {
                service: service@,
                name: name@,
                request: request@,
                response: response@,
                path: derived_path(service@, name@),
            }),
    {
        MethodDescriptor {
            service: service.to_owned(),
            name: name.to_owned(),
            request,
            response,
            path: derive_path(service, name),
        }
    }

    /// The name of the service that the method belongs to.
    pub fn service(&self) -> (service: &str)
        ensures
            service@ == self@.service,
    {
        self.service.as_str()
    }

    /// The name of the method.
    pub fn name(&self) -> (name: &str)
        ensures
            name@ == self@.name,
    {
        self.name.as_str()
    }

    /// The shape of the requests that the method takes.
    pub fn request(&self) -> (shape: &MessageShape)
        ensures
            shape@ == self@.request,
    {
        &self.request
    }

    /// The shape of the responses that the method gives.
    pub fn response(&self) -> (shape: &MessageShape)
        ensures
            shape@ == self@.response,
    {
        &self.response
    }

    /// The path at which the method is served.
    pub fn path(&self) -> (path: &str)
        ensures
            path@ == self@.path,
            self@.well_formed(),
    {
        proof {
            use_type_invariant(self);
        }
        self.path.as_str()
    }
}

/// A service: its name and its methods in the order of their declaration.
#[derive(Debug, PartialEq, Eq)]
pub struct ServiceDescriptor {
    pub(crate) name: String,
    pub(crate) methods: Vec<MethodDescriptor>,
}

/// Mathematical model of a [`ServiceDescriptor`].
pub struct ServiceSpec {
    pub name: Seq<char>,
    pub methods: Seq<MethodSpec>,
}

impl ServiceSpec {
    /// Every method belongs to the service and has the path derived from
    /// the two names.
    pub open spec fn well_formed(self) -> bool {
        forall|k: int|
            0 <= k < self.methods.len() ==> (#[trigger] self.methods[k]).service == self.name
                && self.methods[k].well_formed()
    }
}

impl View for ServiceDescriptor {
    type V = ServiceSpec;

    closed spec fn view(&self) -> ServiceSpec {
        ServiceSpec { name: self.name@, methods: self.methods@.map_values(|m: MethodDescriptor| m@) }
    }
}

impl ServiceDescriptor {
    #[verifier::type_invariant]
    spec fn methods_belong(self) -> bool {
        self@.well_formed()
    }

    /// A service without methods.
    pub fn new(name: &str) -> (service: ServiceDescriptor)
        ensures
            service@ == (ServiceSpec { name: name@, methods: Seq::empty() }),
    {
        let service = ServiceDescriptor { name: name.to_owned(), methods: Vec::new() };
        assert(service@.methods =~= Seq::empty());
        service
    }

    /// Declares one more method of the service.
    pub fn add_method(&mut self, name: &str, request: MessageShape, response: MessageShape)
        ensures
            final(self)@.name == old(self)@.name,
            final(self)@.methods == old(self)@.methods.push(
                MethodSpec {
                    service: old(self)@.name,
                    name: name@,
                    request: request@,
                    response: response@,
                    path: derived_path(old(self)@.name, name@),
                },
            ),
            final(self)@.well_formed(),
    {
        proof {
            use_type_invariant(&*self);
        }
        let method = MethodDescriptor::new(self.name.as_str(), name, request, response);
        let mut methods: Vec<MethodDescriptor> = Vec::new();
        core::mem::swap(&mut methods, &mut self.methods);
        let ghost before = methods@;
        methods.push(method);
        proof {
            let earlier = before.map_values(|m: MethodDescriptor| m@);
            let now = methods@.map_values(|m: MethodDescriptor| m@);
            assert(now =~= earlier.push(method@));
            assert(earlier == old(self)@.methods);
            assert forall|k: int| 0 <= k < now.len() implies (#[trigger] now[k]).service
                == self.name@ && now[k].well_formed() by {
                if k < earlier.len() {
                    assert(now[k] == old(self)@.methods[k]);
                }
            }
        }
        self.methods = methods;
    }

    /// The name of the service.
    pub fn name(&self) -> (name: &str)
        ensures
            name@ == self@.name,
    {
        self.name.as_str()
    }

    /// Gives the methods away.
    pub fn into_methods(self) -> (methods: Vec<MethodDescriptor>)
        ensures
            methods@.map_values(|m: MethodDescriptor| m@) == self@.methods,
            self@.well_formed(),
    {
        proof {
            use_type_invariant(&self);
        }
        self.methods
    }

    /// The methods of the service.
    pub fn methods(&self) -> (methods: &Vec<MethodDescriptor>)
        ensures
            methods@.map_values(|m: MethodDescriptor| m@) == self@.methods,
            self@.well_formed(),
    {
        proof {
            use_type_invariant(self);
        }
        &self.methods
    }
}

} // verus!
