//! Conversion between wire bytes and typed messages.

pub mod binary;
pub mod json;
pub mod json_roundtrip;
pub mod json_scalar;
pub mod json_skip;
pub mod json_text;

use crate::codec::binary::{
    all_fit, lemma_record_fits, lemma_record_round_trip, read_record, record, record_at,
    write_record,
};
use crate::codec::json::{object_at, object_text, read_object, write_object};
use crate::codec::json_roundtrip::{lemma_object_fits, lemma_object_round_trip};
use crate::schema::{conforms, distinct_names, FieldSpec, Message, MessageShape, ValueSpec};
use crate::wire::chars_of;
use vstd::prelude::*;
use vstd::string::StringExecFns;

verus! {

/// Why a body could not be decoded.
#[derive(Clone, Copy, Debug, PartialEq, Eq, Structural)]
pub enum DecodeErrorKind {
    /// The body ends before the message is complete.
    Truncated,
    /// The body breaks the grammar of its format.
    Malformed,
    /// A value is well formed but not of the type its field asks for.
    TypeMismatch,
    /// A field of the shape does not occur in the body.
    MissingField,
}

/// Why a body could not be decoded, and the field at which it went wrong
/// where one is known.
#[derive(Clone, Debug, PartialEq, Eq)]
pub struct DecodeError {
    pub kind: DecodeErrorKind,
    pub field: Option<String>,
}

/// Mathematical model of a [`DecodeError`].
pub struct DecodeFault {
    pub kind: DecodeErrorKind,
    pub field: Option<Seq<char>>,
}

impl View for DecodeError {
    type V = DecodeFault;

    open spec fn view(&self) -> DecodeFault {
        DecodeFault {
            kind: self.kind,
            field: match self.field {
                Some(name) => Some(name@),
                None => None,
            },
        }
    }
}

/// A fault that names no field.
pub open spec fn fault(kind: DecodeErrorKind) -> DecodeFault {
    DecodeFault { kind, field: None }
}

/// A fault at the field called `name`.
pub open spec fn fault_at(kind: DecodeErrorKind, name: Seq<char>) -> DecodeFault {
    DecodeFault { kind, field: Some(name) }
}

/// What the outcome of decoding stands for.
pub open spec fn decoded(r: Result<Message, DecodeError>) -> Result<Seq<ValueSpec>, DecodeFault> {
    match r {
        Ok(message) => Ok(message@),
        Err(error) => Err(error@),
    }
}

/// Why a message could not be encoded.
#[derive(Clone, Copy, Debug, PartialEq, Eq, Structural)]
pub enum EncodeError {
    /// The message does not have the fields of the shape.
    ShapeMismatch,
}

/// What the outcome of encoding stands for.
pub open spec fn encoded(r: Result<Vec<u8>, EncodeError>) -> Result<Seq<u8>, EncodeError> {
    match r {
        Ok(bytes) => Ok(bytes@),
        Err(error) => Err(error),
    }
}

/// The two wire formats, named by the content type of a request.
#[derive(Clone, Copy, Debug, PartialEq, Eq, Structural)]
pub enum ContentType {
    /// `application/json`: an object in text.
    Json,
    /// `application/proto`: length-delimited fields in binary.
    Proto,
}

/// The header value that names a content type.
pub open spec fn mime_of(content_type: ContentType) -> Seq<char> {
    match content_type {
        ContentType::Json => "application/json"@,
        ContentType::Proto => "application/proto"@,
    }
}

/// White space, as the characters of Unicode have that property.
pub open spec fn is_blank(c: char) -> bool {
    let u = c as u32;
    (0x09 <= u <= 0x0d) || u == 0x20 || u == 0x85 || u == 0xa0 || u == 0x1680 || (0x2000 <= u
        <= 0x200a) || u == 0x2028 || u == 0x2029 || u == 0x202f || u == 0x205f || u == 0x3000
}

/// The place of the first semicolon from `from` on, or the end where there
/// is none: behind it stand the parameters of a media type.
pub open spec fn parameters_start(value: Seq<char>, from: int) -> int
    decreases value.len() - from,
{
    if from < 0 || from >= value.len() || value[from] == ';' {
        from
    } else {
        parameters_start(value, from + 1)
    }
}

/// The first place from `from` on and before `to` that holds no white space.
pub open spec fn after_blanks(value: Seq<char>, from: int, to: int) -> int
    decreases to - from,
{
    if from < to && is_blank(value[from]) {
        after_blanks(value, from + 1, to)
    } else {
        from
    }
}

/// The place behind the last character before `to`, and not before `from`,
/// that is no white space.
pub open spec fn before_blanks(value: Seq<char>, from: int, to: int) -> int
    decreases to - from,
{
    if from < to && is_blank(value[to - 1]) {
        before_blanks(value, from, to - 1)
    } else {
        to
    }
}

/// The media type that a header value names: what stands before the first
/// semicolon, without the white space around it.
pub open spec fn essence(value: Seq<char>) -> Seq<char> {
    let cut = parameters_start(value, 0);
    let first = after_blanks(value, 0, cut);
    let last = before_blanks(value, first, cut);
    value.subrange(first, last)
}

/// A character with an upper-case letter of ASCII made lower-case.
pub open spec fn lower_case(c: char) -> u32 {
    let u = c as u32;
    if 0x41 <= u <= 0x5a {
        (u + 0x20) as u32
    } else {
        u
    }
}

/// A text reads as a name in lower case when it is that name but for the
/// case of its letters.
pub open spec fn reads_as(text: Seq<char>, name: Seq<char>) -> bool {
    &&& text.len() == name.len()
    &&& forall|k: int| 0 <= k < text.len() ==> lower_case(#[trigger] text[k]) == name[k] as u32
}

/// The content type that a header value names, if it names one. The value
/// is cut at its first semicolon, the white space around what is left is
/// dropped, and the case of letters does not count.
pub open spec fn content_type_of(value: Seq<char>) -> Option<ContentType> {
    if reads_as(essence(value), "application/json"@) {
        Some(ContentType::Json)
    } else if reads_as(essence(value), "application/proto"@) {
        Some(ContentType::Proto)
    } else {
        None
    }
}

/// Tells whether a character is white space.
fn blank(c: char) -> (b: bool)
    ensures
        b == is_blank(c),
{
    let u: u32 = c as u32;
    (0x09 <= u && u <= 0x0d) || u == 0x20 || u == 0x85 || u == 0xa0 || u == 0x1680 || (0x2000 <= u
        && u <= 0x200a) || u == 0x2028 || u == 0x2029 || u == 0x202f || u == 0x205f || u == 0x3000
}

/// Tells whether the characters from `first` up to `last` read as `name`.
fn reads(chars: &Vec<char>, first: usize, last: usize, name: &str) -> (same: bool)
    requires
        first <= last <= chars.len(),
    ensures
        same == reads_as(chars@.subrange(first as int, last as int), name@),
{
    let wanted = chars_of(name);
    let ghost text = chars@.subrange(first as int, last as int);
    if last - first != wanted.len() {
        return false;
    }
    let mut k: usize = 0;
    while k < wanted.len()
        invariant
            k <= wanted.len(),
            first <= last <= chars.len(),
            last - first == wanted.len(),
            wanted@ == name@,
            text == chars@.subrange(first as int, last as int),
            forall|j: int| 0 <= j < k ==> lower_case(#[trigger] text[j]) == name@[j] as u32,
        decreases wanted.len() - k,
    {
        let u: u32 = chars[first + k] as u32;
        let folded: u32 = if 0x41 <= u && u <= 0x5a {
            u + 0x20
        } else {
            u
        };
        assert(text[k as int] == chars@[first + k]);
        if folded != wanted[k] as u32 {
            return false;
        }
        k += 1;
    }
    true
}

impl ContentType {
    /// The header value that names this content type.
    pub fn mime(self) -> (name: &'static str)
        ensures
            name@ == mime_of(self),
    {
        match self {
            ContentType::Json => "application/json",
            ContentType::Proto => "application/proto",
        }
    }

    /// Recognizes the value of a content type header.
    pub fn parse(value: &str) -> (r: Option<ContentType>)
        ensures
            r == content_type_of(value@),
    {
        let chars = chars_of(value);
        let mut cut: usize = 0;
        while cut < chars.len() && chars[cut] != ';'
            invariant
                cut <= chars.len(),
                parameters_start(chars@, 0) == parameters_start(chars@, cut as int),
            decreases chars.len() - cut,
        {
            cut += 1;
        }
        let mut first: usize = 0;
        while first < cut && blank(chars[first])
            invariant
                first <= cut <= chars.len(),
                after_blanks(chars@, 0, cut as int) == after_blanks(chars@, first as int, cut as int),
            decreases cut - first,
        {
            first += 1;
        }
        let mut last: usize = cut;
        while first < last && blank(chars[last - 1])
            invariant
                first <= last <= cut <= chars.len(),
                before_blanks(chars@, first as int, cut as int) == before_blanks(
                    chars@,
                    first as int,
                    last as int,
                ),
            decreases last - first,
        {
            last -= 1;
        }
        if reads(&chars, first, last, "application/json") {
            Some(ContentType::Json)
        } else if reads(&chars, first, last, "application/proto") {
            Some(ContentType::Proto)
        } else {
            None
        }
    }
}

/// What decoding a body in the given format yields.
pub open spec fn decode_spec(content_type: ContentType, body: Seq<u8>, fields: Seq<FieldSpec>)
    -> Result<Seq<ValueSpec>, DecodeFault> {
    match content_type {
        ContentType::Json => object_at(body, fields),
        ContentType::Proto => record_at(body, fields),
    }
}

/// What encoding a message in the given format yields. A message that does
/// not fit the shape is refused; every other message is encoded.
pub open spec fn encode_spec(
    content_type: ContentType,
    fields: Seq<FieldSpec>,
    values: Seq<ValueSpec>,
) -> Result<Seq<u8>, EncodeError> {
    if !conforms(values, fields) {
        Err(EncodeError::ShapeMismatch)
    } else {
        match content_type {
            ContentType::Json => Ok(object_text(fields, values)),
            ContentType::Proto => Ok(record(values, 0)),
        }
    }
}

/// Decodes a body of the given format into a message of the given shape.
pub fn decode(content_type: ContentType, body: &[u8], shape: &MessageShape) -> (r: Result<
    Message,
    DecodeError,
>)
    ensures
        decoded(r) == decode_spec(content_type, body@, shape@.fields),
        r matches Ok(message) ==> conforms(message@, shape@.fields),
{
    proof {
        lemma_decoded_fits(content_type, body@, shape@.fields);
    }
    match content_type {
        ContentType::Json => read_object(body, shape),
        ContentType::Proto => read_record(body, shape),
    }
}

/// Encodes a message of the given shape in the given format. A message
/// that does not fit the shape is refused and every other message is
/// encoded. The bytes depend on the format, the shape and the message
/// alone, and where the fields of the shape have distinct names they decode
/// to the message.
pub fn encode(content_type: ContentType, shape: &MessageShape, message: &Message) -> (r: Result<
    Vec<u8>,
    EncodeError,
>)
    ensures
        encoded(r) == encode_spec(content_type, shape@.fields, message@),
        r.is_ok() == conforms(message@, shape@.fields),
        distinct_names(shape@.fields) ==> (r matches Ok(body) ==> decode_spec(
            content_type,
            body@,
            shape@.fields,
        ) == Ok::<Seq<ValueSpec>, DecodeFault>(message@)),
{
    if !message.conforms_to(shape) {
        return Err(EncodeError::ShapeMismatch);
    }
    match content_type {
        ContentType::Json => {
            let mut out: Vec<u8> = Vec::new();
            write_object(&mut out, shape, message);
            proof {
                assert(Seq::<u8>::empty() + object_text(shape@.fields, message@) =~= object_text(
                    shape@.fields,
                    message@,
                ));
                if distinct_names(shape@.fields) {
                    lemma_decode_encode(content_type, shape@.fields, message@);
                }
            }
            Ok(out)
        },
        ContentType::Proto => {
            let out = write_record(message);
            proof {
                if distinct_names(shape@.fields) {
                    lemma_decode_encode(content_type, shape@.fields, message@);
                }
            }
            Ok(out)
        },
    }
}

/// Decoding undoes encoding, in each format: a message that fits a shape
/// with distinct field names is encoded to bytes that decode to the same
/// message. In the binary layout this holds of every text whose length
/// fits in eight bytes, as that of every text in memory does.
pub proof fn lemma_decode_encode(
    content_type: ContentType,
    fields: Seq<FieldSpec>,
    values: Seq<ValueSpec>,
)
    requires
        distinct_names(fields),
        conforms(values, fields),
        content_type == ContentType::Proto ==> all_fit(values),
    ensures
        encode_spec(content_type, fields, values) matches Ok(body) && decode_spec(
            content_type,
            body,
            fields,
        ) == Ok::<Seq<ValueSpec>, DecodeFault>(values),
{
    match content_type {
        ContentType::Json => {
            lemma_object_round_trip(fields, values);
        },
        ContentType::Proto => {
            lemma_record_round_trip(fields, values);
        },
    }
}

/// Whatever is decoded fits the shape it was decoded for.
pub proof fn lemma_decoded_fits(content_type: ContentType, body: Seq<u8>, fields: Seq<FieldSpec>)
    ensures
        decode_spec(content_type, body, fields) matches Ok(values) ==> conforms(values, fields),
{
    match content_type {
        ContentType::Json => {
            lemma_object_fits(body, fields);
        },
        ContentType::Proto => {
            lemma_record_fits(body, fields);
        },
    }
}

/// A content type is recognized from its own header value.
pub proof fn lemma_content_type_of_mime(content_type: ContentType)
    ensures
        content_type_of(mime_of(content_type)) == Some(content_type),
{
    let name = mime_of(content_type);
    reveal_strlit("application/json");
    reveal_strlit("application/proto");
    assert(forall|k: int| 0 <= k < name.len() ==> name[k] != ';' && !is_blank(#[trigger] name[k])
        && lower_case(name[k]) == name[k] as u32);
    lemma_no_parameters(name, 0);
    assert(essence(name) =~= name);
}

/// A value without a semicolon has no parameters.
proof fn lemma_no_parameters(value: Seq<char>, from: int)
    requires
        0 <= from <= value.len(),
        forall|k: int| from <= k < value.len() ==> #[trigger] value[k] != ';',
    ensures
        parameters_start(value, from) == value.len(),
    decreases value.len() - from,
{
    if from < value.len() {
        lemma_no_parameters(value, from + 1);
    }
}

/// What a decoding fault reads like.
pub open spec fn kind_text(kind: DecodeErrorKind) -> Seq<char> {
    match kind {
        DecodeErrorKind::Truncated => "body is truncated"@,
        DecodeErrorKind::Malformed => "body is malformed"@,
        DecodeErrorKind::TypeMismatch => "value has the wrong type"@,
        DecodeErrorKind::MissingField => "field is missing"@,
    }
}

/// What a decoding fault reads like, with the field where one is known.
pub open spec fn fault_text(f: DecodeFault) -> Seq<char> {
    match f.field {
        Some(name) => kind_text(f.kind) + ": "@ + name,
        None => kind_text(f.kind),
    }
}

impl DecodeError {
    /// A sentence for the caller: what went wrong and at which field.
    pub fn describe(&self) -> (text: String)
        ensures
            text@ == fault_text(self@),
    {
        let kind: &'static str = match self.kind {
            DecodeErrorKind::Truncated => "body is truncated",
            DecodeErrorKind::Malformed => "body is malformed",
            DecodeErrorKind::TypeMismatch => "value has the wrong type",
            DecodeErrorKind::MissingField => "field is missing",
        };
        let mut text = kind.to_owned();
        match &self.field {
            Some(name) => {
                text.append(": ");
                text.append(name.as_str());
            },
            None => {},
        }
        text
    }
}

} // verus!
