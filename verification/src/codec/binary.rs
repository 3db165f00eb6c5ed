//! Messages in the binary layout: the fields in the order of the shape,
//! each as a little-endian length of eight bytes and a payload of that many
//! bytes. A text is its UTF-8 form, an integer its eight bytes in
//! little-endian two's complement, a boolean one byte that is zero or one.

use crate::codec::{decoded, fault, fault_at, DecodeError, DecodeErrorKind, DecodeFault};
use crate::schema::{conforms, FieldKind, FieldSpec, Message, MessageShape, Value, ValueSpec};
use crate::wire::{append, lemma_occurs_at_concat, occurs_at, string_from_utf8};
use vstd::bytes::{
    lemma_auto_spec_u64_to_from_le_bytes, spec_u64_from_le_bytes, spec_u64_to_le_bytes,
    u64_from_le_bytes, u64_to_le_bytes,
};
use vstd::prelude::*;
use vstd::slice::{slice_subrange, slice_to_vec};
use vstd::utf8::{
    decode_utf8, encode_utf8, encode_utf8_decode_utf8, encode_utf8_valid_utf8, valid_utf8,
};

verus! {

/// The unsigned number with the bits of `v` in two's complement.
pub open spec fn unsigned_of(v: i64) -> u64 {
    if v >= 0 {
        v as u64
    } else {
        (v + 0x1_0000_0000_0000_0000) as u64
    }
}

/// The signed number with the bits of `u` in two's complement.
pub open spec fn signed_of(u: u64) -> i64 {
    if u < 0x8000_0000_0000_0000 {
        u as i64
    } else {
        (u - 0x1_0000_0000_0000_0000) as i64
    }
}

/// The payload of a value.
pub open spec fn payload(value: ValueSpec) -> Seq<u8> {
    match value {
        ValueSpec::Text(text) => encode_utf8(text),
        ValueSpec::Integer(n) => spec_u64_to_le_bytes(unsigned_of(n)),
        ValueSpec::Boolean(b) => if b {
            seq![1u8]
        } else {
            seq![0u8]
        },
    }
}

/// A payload can be framed when its length fits in eight bytes, as the
/// length of everything does that a machine holds.
pub open spec fn fits(value: ValueSpec) -> bool {
    payload(value).len() <= u64::MAX
}

/// Every value of a message can be framed.
pub open spec fn all_fit(values: Seq<ValueSpec>) -> bool {
    forall|k: int| 0 <= k < values.len() ==> fits(#[trigger] values[k])
}

/// A value with its length in front.
pub open spec fn framed(value: ValueSpec) -> Seq<u8> {
    spec_u64_to_le_bytes(payload(value).len() as u64) + payload(value)
}

/// The values from the `k`-th on, framed one after the other.
pub open spec fn record(values: Seq<ValueSpec>, k: int) -> Seq<u8>
    decreases values.len() - k,
{
    if k < 0 || k >= values.len() {
        seq![]
    } else {
        framed(values[k]) + record(values, k + 1)
    }
}

/// The value that a payload stands for in a field of the given kind.
pub open spec fn payload_value(kind: FieldKind, bytes: Seq<u8>) -> Result<
    ValueSpec,
    DecodeErrorKind,
> {
    match kind {
        FieldKind::Text => if valid_utf8(bytes) {
            Ok(ValueSpec::Text(decode_utf8(bytes)))
        } else {
            Err(DecodeErrorKind::Malformed)
        },
        FieldKind::Integer => if bytes.len() == 8 {
            Ok(ValueSpec::Integer(signed_of(spec_u64_from_le_bytes(bytes))))
        } else {
            Err(DecodeErrorKind::TypeMismatch)
        },
        FieldKind::Boolean => if bytes.len() != 1 {
            Err(DecodeErrorKind::TypeMismatch)
        } else if bytes[0] == 0 {
            Ok(ValueSpec::Boolean(false))
        } else if bytes[0] == 1 {
            Ok(ValueSpec::Boolean(true))
        } else {
            Err(DecodeErrorKind::Malformed)
        },
    }
}

/// Puts `head` in front of the values that were read behind it.
pub open spec fn values_before(head: Seq<ValueSpec>, read: Result<Seq<ValueSpec>, DecodeFault>)
    -> Result<Seq<ValueSpec>, DecodeFault> {
    match read {
        Ok(rest) => Ok(head + rest),
        Err(f) => Err(f),
    }
}

/// Reads the fields from the `k`-th on at `i`, up to the end of the body.
/// A body that ends inside a field is truncated at that field; bytes behind
/// the last field are not accepted.
pub open spec fn record_from(s: Seq<u8>, i: int, fields: Seq<FieldSpec>, k: int) -> Result<
    Seq<ValueSpec>,
    DecodeFault,
>
    decreases fields.len() - k,
{
    if k < 0 || k >= fields.len() {
        if i == s.len() {
            Ok(Seq::empty())
        } else {
            Err(fault(DecodeErrorKind::Malformed))
        }
    } else if i < 0 || i + 8 > s.len() {
        Err(fault_at(DecodeErrorKind::Truncated, fields[k].name))
    } else {
        let len = spec_u64_from_le_bytes(s.subrange(i, i + 8)) as int;
        if i + 8 + len > s.len() {
            Err(fault_at(DecodeErrorKind::Truncated, fields[k].name))
        } else {
            match payload_value(fields[k].kind, s.subrange(i + 8, i + 8 + len)) {
                Ok(value) => values_before(seq![value], record_from(s, i + 8 + len, fields, k + 1)),
                Err(kind) => Err(fault_at(kind, fields[k].name)),
            }
        }
    }
}

/// Reads a whole body as the fields of the shape.
pub open spec fn record_at(s: Seq<u8>, fields: Seq<FieldSpec>) -> Result<
    Seq<ValueSpec>,
    DecodeFault,
> {
    record_from(s, 0, fields, 0)
}

/// The unsigned number with the bits of `v`.
fn to_unsigned(v: i64) -> (u: u64)
    ensures
        u == unsigned_of(v),
{
    if v >= 0 {
        v as u64
    } else {
        u64::MAX - ((-(v + 1)) as u64)
    }
}

/// The signed number with the bits of `u`.
fn to_signed(u: u64) -> (v: i64)
    ensures
        v == signed_of(u),
{
    if u < 0x8000_0000_0000_0000 {
        u as i64
    } else {
        -((u64::MAX - u) as i64) - 1
    }
}

/// Appends one framed value to `out`.
fn write_framed(out: &mut Vec<u8>, value: &Value)
    ensures
        fits(value@),
        final(out)@ == old(out)@ + framed(value@),
{
    let ghost before = out@;
    match value {
        Value::Text(text) => {
            let bytes = text.as_str().as_bytes();
            let length = u64_to_le_bytes(bytes.len() as u64);
            append(out, length.as_slice());
            append(out, bytes);
        },
        Value::Integer(n) => {
            let bytes = u64_to_le_bytes(to_unsigned(*n));
            let length = u64_to_le_bytes(8);
            append(out, length.as_slice());
            append(out, bytes.as_slice());
        },
        Value::Boolean(b) => {
            let length = u64_to_le_bytes(1);
            append(out, length.as_slice());
            out.push(if *b { 1 } else { 0 });
        },
    }
    assert(out@ =~= before + framed(value@));
}

/// Writes a message in the binary layout.
pub fn write_record(message: &Message) -> (bytes: Vec<u8>)
    ensures
        bytes@ == record(message@, 0),
        all_fit(message@),
{
    let ghost values = message@;
    let mut out: Vec<u8> = Vec::new();
    let mut k: usize = 0;
    while k < message.fields.len()
        invariant
            k <= message.fields.len(),
            values == message@,
            forall|j: int| 0 <= j < k ==> fits(#[trigger] values[j]),
            out@ + record(values, k as int) == record(values, 0),
        decreases message.fields.len() - k,
    {
        let ghost before = out@;
        assert(values[k as int] == message.fields@[k as int]@);
        write_framed(&mut out, &message.fields[k]);
        assert(before + (framed(values[k as int]) + record(values, k + 1)) =~= before + framed(
            values[k as int],
        ) + record(values, k + 1));
        k += 1;
    }
    assert(out@ + Seq::<u8>::empty() =~= out@);
    out
}

/// Reads the value of a field of the given kind from its payload.
fn read_payload(kind: FieldKind, bytes: &[u8]) -> (r: Result<Value, DecodeErrorKind>)
    ensures
        match payload_value(kind, bytes@) {
            Ok(value) => r matches Ok(read) && read@ == value,
            Err(kind) => r matches Err(k) && k == kind,
        },
{
    match kind {
        FieldKind::Text => match string_from_utf8(slice_to_vec(bytes)) {
            Some(text) => Ok(Value::Text(text)),
            None => Err(DecodeErrorKind::Malformed),
        },
        FieldKind::Integer => {
            if bytes.len() == 8 {
                Ok(Value::Integer(to_signed(u64_from_le_bytes(bytes))))
            } else {
                Err(DecodeErrorKind::TypeMismatch)
            }
        },
        FieldKind::Boolean => {
            if bytes.len() != 1 {
                Err(DecodeErrorKind::TypeMismatch)
            } else if bytes[0] == 0 {
                Ok(Value::Boolean(false))
            } else if bytes[0] == 1 {
                Ok(Value::Boolean(true))
            } else {
                Err(DecodeErrorKind::Malformed)
            }
        },
    }
}

/// Putting two heads in front, one after the other, is putting their
/// concatenation in front.
proof fn lemma_values_before_twice(
    a: Seq<ValueSpec>,
    b: Seq<ValueSpec>,
    read: Result<Seq<ValueSpec>, DecodeFault>,
)
    ensures
        values_before(a, values_before(b, read)) == values_before(a + b, read),
{
    match read {
        Ok(rest) => {
            assert(a + (b + rest) =~= (a + b) + rest);
        },
        Err(_) => {},
    }
}

/// Reads a whole body as the fields of the shape.
pub fn read_record(s: &[u8], shape: &MessageShape) -> (r: Result<Message, DecodeError>)
    ensures
        decoded(r) == record_at(s@, shape@.fields),
{
    let ghost fields = shape@.fields;
    let n: usize = s.len();
    let mut values: Vec<Value> = Vec::new();
    let mut i: usize = 0;
    let mut k: usize = 0;
    assert(Seq::<Value>::empty().map_values(|v: Value| v@) =~= Seq::<ValueSpec>::empty());
    proof {
        lemma_values_before_nothing(record_from(s@, 0, fields, 0));
    }
    while k < shape.fields.len()
        invariant
            k <= shape.fields.len(),
            i <= n,
            n == s.len(),
            fields == shape@.fields,
            record_at(s@, fields) == values_before(
                values@.map_values(|v: Value| v@),
                record_from(s@, i as int, fields, k as int),
            ),
        decreases shape.fields.len() - k,
    {
        assert(fields[k as int] == shape.fields@[k as int]@);
        if n - i < 8 {
            return Err(
                DecodeError {
                    kind: DecodeErrorKind::Truncated,
                    field: Some(shape.fields[k].name.clone()),
                },
            );
        }
        let length: u64 = u64_from_le_bytes(slice_subrange(s, i, i + 8));
        if length > (n - (i + 8)) as u64 {
            return Err(
                DecodeError {
                    kind: DecodeErrorKind::Truncated,
                    field: Some(shape.fields[k].name.clone()),
                },
            );
        }
        let len: usize = length as usize;
        let start: usize = i + 8;
        match read_payload(shape.fields[k].kind, slice_subrange(s, start, start + len)) {
            Ok(value) => {
                proof {
                    lemma_values_before_twice(
                        values@.map_values(|v: Value| v@),
                        seq![value@],
                        record_from(s@, start + len, fields, k + 1),
                    );
                    assert(values@.push(value).map_values(|v: Value| v@) =~= values@.map_values(
                        |v: Value| v@,
                    ) + seq![value@]);
                }
                values.push(value);
            },
            Err(kind) => {
                return Err(DecodeError { kind, field: Some(shape.fields[k].name.clone()) });
            },
        }
        i = start + len;
        k += 1;
    }
    if i != n {
        return Err(DecodeError { kind: DecodeErrorKind::Malformed, field: None });
    }
    let message = Message { fields: values };
    assert(message@ + Seq::<ValueSpec>::empty() =~= message@);
    Ok(message)
}

/// Putting nothing in front changes nothing.
proof fn lemma_values_before_nothing(read: Result<Seq<ValueSpec>, DecodeFault>)
    ensures
        values_before(Seq::empty(), read) == read,
{
    match read {
        Ok(rest) => {
            assert(Seq::<ValueSpec>::empty() + rest =~= rest);
        },
        Err(_) => {},
    }
}

/// A payload is read as the value it was written from.
proof fn lemma_payload_value(value: ValueSpec)
    ensures
        payload_value(value.kind(), payload(value)) == Ok::<ValueSpec, DecodeErrorKind>(value),
{
    match value {
        ValueSpec::Text(text) => {
            encode_utf8_valid_utf8(text);
            encode_utf8_decode_utf8(text);
        },
        ValueSpec::Integer(n) => {
            lemma_auto_spec_u64_to_from_le_bytes();
        },
        ValueSpec::Boolean(b) => {},
    }
}

/// Where the framed values from the `k`-th on stand at `i` and end the
/// body, they are read as they were written.
proof fn lemma_record_from_text(
    s: Seq<u8>,
    i: int,
    fields: Seq<FieldSpec>,
    values: Seq<ValueSpec>,
    k: int,
)
    requires
        conforms(values, fields),
        all_fit(values),
        0 <= k <= values.len(),
        occurs_at(s, i, record(values, k)),
        i + record(values, k).len() == s.len(),
    ensures
        record_from(s, i, fields, k) == Ok::<Seq<ValueSpec>, DecodeFault>(values.skip(k)),
    decreases values.len() - k,
{
    if k == values.len() {
        assert(values.skip(k) =~= Seq::<ValueSpec>::empty());
    } else {
        let value = values[k];
        let body = payload(value);
        let length = spec_u64_to_le_bytes(body.len() as u64);
        let rest = record(values, k + 1);
        lemma_auto_spec_u64_to_from_le_bytes();
        assert(fits(value));
        assert(length.len() == 8);
        lemma_occurs_at_concat(s, i, framed(value), rest);
        lemma_occurs_at_concat(s, i, length, body);
        assert(s.subrange(i, i + 8) =~= length) by {
            assert forall|j: int| 0 <= j < 8 implies s.subrange(i, i + 8)[j] == length[j] by {
                assert(s[i + j] == length[j]);
            }
        }
        assert(s.subrange(i + 8, i + 8 + body.len()) =~= body) by {
            assert forall|j: int| 0 <= j < body.len() implies s.subrange(
                i + 8,
                i + 8 + body.len(),
            )[j] == body[j] by {
                assert(s[i + 8 + j] == body[j]);
            }
        }
        lemma_payload_value(value);
        lemma_record_from_text(s, i + 8 + body.len(), fields, values, k + 1);
        assert(seq![value] + values.skip(k + 1) =~= values.skip(k));
    }
}

/// Reading a written message gives the message back: for every message
/// that fits its shape and whose texts can be framed, as every text in
/// memory can.
pub proof fn lemma_record_round_trip(fields: Seq<FieldSpec>, values: Seq<ValueSpec>)
    requires
        conforms(values, fields),
        all_fit(values),
    ensures
        record_at(record(values, 0), fields) == Ok::<Seq<ValueSpec>, DecodeFault>(values),
{
    let s = record(values, 0);
    assert(occurs_at(s, 0, s));
    lemma_record_from_text(s, 0, fields, values, 0);
    assert(values.skip(0) =~= values);
}

/// The values read from the `k`-th field on are as many as the fields from
/// there on, each of the kind of its field.
proof fn lemma_record_from_fits(s: Seq<u8>, i: int, fields: Seq<FieldSpec>, k: int)
    requires
        0 <= k <= fields.len(),
    ensures
        record_from(s, i, fields, k) matches Ok(values) ==> values.len() == fields.len() - k
            && forall|j: int|
            0 <= j < values.len() ==> (#[trigger] values[j]).kind() == fields[k + j].kind,
    decreases fields.len() - k,
{
    if k < fields.len() && 0 <= i && i + 8 <= s.len() {
        let len = spec_u64_from_le_bytes(s.subrange(i, i + 8)) as int;
        if i + 8 + len <= s.len() {
            lemma_record_from_fits(s, i + 8 + len, fields, k + 1);
            match payload_value(fields[k].kind, s.subrange(i + 8, i + 8 + len)) {
                Ok(value) => {
                    match record_from(s, i + 8 + len, fields, k + 1) {
                        Ok(rest) => {
                            let values = seq![value] + rest;
                            assert forall|j: int| 0 <= j < values.len() implies (
                            #[trigger] values[j]).kind() == fields[k + j].kind by {
                                if j > 0 {
                                    assert(values[j] == rest[j - 1]);
                                }
                            }
                        },
                        Err(_) => {},
                    }
                },
                Err(_) => {},
            }
        }
    }
}

/// A message that was read from the binary layout fits the shape it was
/// read for.
pub proof fn lemma_record_fits(s: Seq<u8>, fields: Seq<FieldSpec>)
    ensures
        record_at(s, fields) matches Ok(values) ==> conforms(values, fields),
{
    lemma_record_from_fits(s, 0, fields, 0);
}

} // verus!
