//! Messages in the text format: an object with one member per field, named
//! as the shape names it and written in the order of the shape.

use crate::codec::json_scalar::{
    after_spaces, false_text, integer_at, integer_text, is_digit, read_integer, read_word,
    skip_spaces, true_text, word_at, write_integer,
};
use crate::codec::json_skip::{skip_value, value_end, MAX_DEPTH};
use crate::codec::json_text::{quoted, read_string, string_at, write_string};
use crate::codec::{decoded, fault, fault_at, DecodeError, DecodeErrorKind, DecodeFault};
use crate::schema::{FieldKind, FieldSpec, Message, MessageShape, Value, ValueSpec};
use crate::wire::{
    append, same_text, string_from_utf8, COLON, COMMA, DIGIT_NINE, DIGIT_ZERO, LBRACE, LBRACKET,
    MINUS, QUOTE, RBRACE,
};
use vstd::prelude::*;
use vstd::utf8::{decode_utf8, encode_utf8, valid_utf8};

verus! {

/// How one value is written.
pub open spec fn value_text(value: ValueSpec) -> Seq<u8> {
    match value {
        ValueSpec::Text(text) => quoted(encode_utf8(text)),
        ValueSpec::Integer(n) => integer_text(n as int),
        ValueSpec::Boolean(b) => if b {
            true_text()
        } else {
            false_text()
        },
    }
}

/// How one member is written: its name, a colon, its value.
pub open spec fn member_text(field: FieldSpec, value: ValueSpec) -> Seq<u8> {
    quoted(encode_utf8(field.name)) + seq![COLON] + value_text(value)
}

/// The members from the `k`-th on, each but the very first behind a comma,
/// and the closing brace.
pub open spec fn members_text(fields: Seq<FieldSpec>, values: Seq<ValueSpec>, k: int) -> Seq<u8>
    decreases fields.len() - k,
{
    if k < 0 || k >= fields.len() {
        seq![RBRACE]
    } else if k == 0 {
        member_text(fields[k], values[k]) + members_text(fields, values, k + 1)
    } else {
        seq![COMMA] + member_text(fields[k], values[k]) + members_text(fields, values, k + 1)
    }
}

/// A message as an object of the text format.
pub open spec fn object_text(fields: Seq<FieldSpec>, values: Seq<ValueSpec>) -> Seq<u8> {
    seq![LBRACE] + members_text(fields, values, 0)
}

/// The values read so far, by field.
pub type Slots = Seq<Option<ValueSpec>>;

/// The first field from `from` on that is called `name`.
pub open spec fn field_index(fields: Seq<FieldSpec>, name: Seq<char>, from: int) -> Option<int>
    decreases fields.len() - from,
{
    if from < 0 || from >= fields.len() {
        None
    } else if fields[from].name == name {
        Some(from)
    } else {
        field_index(fields, name, from + 1)
    }
}

/// The bytes with which a value of some type may start.
pub open spec fn starts_value(b: u8) -> bool {
    b == QUOTE || b == LBRACE || b == LBRACKET || b == 0x74 || b == 0x66 || b == 0x6e || b
        == MINUS || is_digit(b)
}

/// Reads the value of a field of the given kind at `i`. A value of another
/// type is a mismatch; a text must be well-formed UTF-8.
pub open spec fn field_value_at(s: Seq<u8>, i: int, kind: FieldKind) -> Result<
    (ValueSpec, int),
    DecodeErrorKind,
> {
    if i < 0 || i >= s.len() {
        Err(DecodeErrorKind::Truncated)
    } else if !starts_value(s[i]) {
        Err(DecodeErrorKind::Malformed)
    } else {
        match kind {
            FieldKind::Text => if s[i] != QUOTE {
                Err(DecodeErrorKind::TypeMismatch)
            } else {
                match string_at(s, i) {
                    Ok((bytes, end)) => if valid_utf8(bytes) {
                        Ok((ValueSpec::Text(decode_utf8(bytes)), end))
                    } else {
                        Err(DecodeErrorKind::Malformed)
                    },
                    Err(kind) => Err(kind),
                }
            },
            FieldKind::Integer => if s[i] == MINUS || is_digit(s[i]) {
                match integer_at(s, i) {
                    Ok((n, end)) => Ok((ValueSpec::Integer(n), end)),
                    Err(kind) => Err(kind),
                }
            } else {
                Err(DecodeErrorKind::TypeMismatch)
            },
            FieldKind::Boolean => if s[i] == 0x74 {
                match word_at(s, i, true_text()) {
                    Ok(end) => Ok((ValueSpec::Boolean(true), end)),
                    Err(kind) => Err(kind),
                }
            } else if s[i] == 0x66 {
                match word_at(s, i, false_text()) {
                    Ok(end) => Ok((ValueSpec::Boolean(false), end)),
                    Err(kind) => Err(kind),
                }
            } else {
                Err(DecodeErrorKind::TypeMismatch)
            },
        }
    }
}

/// A member stands for a field whose slot is filled already.
pub open spec fn repeated(found: Option<int>, slots: Slots) -> bool {
    found matches Some(k) && 0 <= k < slots.len() && slots[k].is_some()
}

/// Reads the value of a member at `i`: into the slot of the field `found`
/// that has the name of the member, or past it where the shape has no
/// field of that name.
pub open spec fn member_value_at(
    s: Seq<u8>,
    i: int,
    fields: Seq<FieldSpec>,
    found: Option<int>,
    slots: Slots,
) -> Result<(Slots, int), DecodeFault> {
    match found {
        Some(k) => match field_value_at(s, i, fields[k].kind) {
            Ok((value, end)) => Ok((slots.update(k, Some(value)), end)),
            Err(kind) => Err(fault_at(kind, fields[k].name)),
        },
        None => match value_end(s, i, MAX_DEPTH as nat) {
            Ok(end) => Ok((slots, end)),
            Err(kind) => Err(fault(kind)),
        },
    }
}

/// Behind the closing brace only white space may follow.
pub open spec fn closing(s: Seq<u8>, i: int, slots: Slots) -> Result<Slots, DecodeFault> {
    if after_spaces(s, i) < s.len() {
        Err(fault(DecodeErrorKind::Malformed))
    } else {
        Ok(slots)
    }
}

/// Reads the members of an object from the one whose name starts at `i` on,
/// up to the end of the body. A name must be well-formed UTF-8, and no
/// field may occur twice. The comparison of `next` with `i` never fails: a
/// member takes at least one byte.
pub open spec fn members_from(s: Seq<u8>, i: int, fields: Seq<FieldSpec>, slots: Slots) -> Result<
    Slots,
    DecodeFault,
>
    decreases s.len() - i,
{
    match string_at(s, i) {
        Ok((key, key_end)) => {
            let found = field_index(fields, decode_utf8(key), 0);
            let colon = after_spaces(s, key_end);
            let start = after_spaces(s, colon + 1);
            if !valid_utf8(key) {
                Err(fault(DecodeErrorKind::Malformed))
            } else if repeated(found, slots) {
                Err(fault_at(DecodeErrorKind::Malformed, decode_utf8(key)))
            } else if colon < 0 || colon >= s.len() {
                Err(fault(DecodeErrorKind::Truncated))
            } else if s[colon] != COLON {
                Err(fault(DecodeErrorKind::Malformed))
            } else {
                match member_value_at(s, start, fields, found, slots) {
                    Ok((filled, end)) => {
                        let mark = after_spaces(s, end);
                        let next = after_spaces(s, mark + 1);
                        if mark < 0 || mark >= s.len() {
                            Err(fault(DecodeErrorKind::Truncated))
                        } else if s[mark] == RBRACE {
                            closing(s, mark + 1, filled)
                        } else if s[mark] == COMMA && i < next <= s.len() {
                            members_from(s, next, fields, filled)
                        } else {
                            Err(fault(DecodeErrorKind::Malformed))
                        }
                    },
                    Err(f) => Err(f),
                }
            }
        },
        Err(kind) => Err(fault(kind)),
    }
}

/// The first slot from `from` on that holds nothing.
pub open spec fn first_missing(slots: Slots, from: int) -> Option<int>
    decreases slots.len() - from,
{
    if from < 0 || from >= slots.len() {
        None
    } else if slots[from].is_none() {
        Some(from)
    } else {
        first_missing(slots, from + 1)
    }
}

/// The message that the slots make up, once none is empty.
pub open spec fn collect(fields: Seq<FieldSpec>, slots: Slots) -> Result<
    Seq<ValueSpec>,
    DecodeFault,
> {
    match first_missing(slots, 0) {
        Some(k) => Err(fault_at(DecodeErrorKind::MissingField, fields[k].name)),
        None => Ok(Seq::new(slots.len(), |k: int| slots[k].unwrap())),
    }
}

/// As many empty slots as there are fields.
pub open spec fn empty_slots(fields: Seq<FieldSpec>) -> Slots {
    Seq::new(fields.len(), |k: int| None::<ValueSpec>)
}

/// Reads a whole body as one object with the fields of the shape. Members
/// may come in any order and members that the shape does not know are
/// stepped over; every field of the shape must occur, and occur once.
pub open spec fn object_at(s: Seq<u8>, fields: Seq<FieldSpec>) -> Result<
    Seq<ValueSpec>,
    DecodeFault,
> {
    let open = after_spaces(s, 0);
    let first = after_spaces(s, open + 1);
    if open < 0 || open >= s.len() {
        Err(fault(DecodeErrorKind::Truncated))
    } else if s[open] != LBRACE {
        if starts_value(s[open]) {
            Err(fault(DecodeErrorKind::TypeMismatch))
        } else {
            Err(fault(DecodeErrorKind::Malformed))
        }
    } else if first < 0 || first >= s.len() {
        Err(fault(DecodeErrorKind::Truncated))
    } else {
        let read = if s[first] == RBRACE {
            closing(s, first + 1, empty_slots(fields))
        } else {
            members_from(s, first, fields, empty_slots(fields))
        };
        match read {
            Ok(slots) => collect(fields, slots),
            Err(f) => Err(f),
        }
    }
}

/// Appends one value to `out`.
fn write_value(out: &mut Vec<u8>, value: &Value)
    ensures
        final(out)@ == old(out)@ + value_text(value@),
{
    match value {
        Value::Text(text) => {
            write_string(out, text.as_str().as_bytes());
        },
        Value::Integer(n) => {
            write_integer(out, *n);
        },
        Value::Boolean(b) => {
            if *b {
                let word: Vec<u8> = vec![0x74, 0x72, 0x75, 0x65];
                assert(word@ =~= true_text());
                append(out, word.as_slice());
            } else {
                let word: Vec<u8> = vec![0x66, 0x61, 0x6c, 0x73, 0x65];
                assert(word@ =~= false_text());
                append(out, word.as_slice());
            }
        },
    }
}

/// Appends a message to `out` as an object of the text format.
pub(crate) fn write_object(out: &mut Vec<u8>, shape: &MessageShape, message: &Message)
    requires
        message@.len() == shape@.fields.len(),
    ensures
        final(out)@ == old(out)@ + object_text(shape@.fields, message@),
{
    let ghost fields = shape@.fields;
    let ghost values = message@;
    out.push(LBRACE);
    let mut k: usize = 0;
    while k < shape.fields.len()
        invariant
            k <= shape.fields.len(),
            fields == shape@.fields,
            values == message@,
            values.len() == fields.len(),
            out@ + members_text(fields, values, k as int) == old(out)@ + object_text(
                fields,
                values,
            ),
        decreases shape.fields.len() - k,
    {
        let ghost before = out@;
        if k > 0 {
            out.push(COMMA);
        }
        write_string(out, shape.fields[k].name.as_str().as_bytes());
        out.push(COLON);
        write_value(out, &message.fields[k]);
        proof {
            let member = member_text(fields[k as int], values[k as int]);
            let rest = members_text(fields, values, k + 1);
            assert(fields[k as int] == shape.fields@[k as int]@);
            assert(values[k as int] == message.fields@[k as int]@);
            if k > 0 {
                assert(out@ =~= before + seq![COMMA] + member);
                assert(before + (seq![COMMA] + member + rest) =~= before + seq![COMMA] + member
                    + rest);
            } else {
                assert(out@ =~= before + member);
                assert(before + (member + rest) =~= before + member + rest);
            }
        }
        k += 1;
    }
    let ghost before = out@;
    out.push(RBRACE);
    assert(out@ =~= before + members_text(fields, values, k as int));
}

/// The slots that a vector of optional values stands for.
pub open spec fn slots_of(values: Seq<Option<Value>>) -> Slots {
    values.map_values(
        |slot: Option<Value>|
            match slot {
                Some(value) => Some(value@),
                None => None,
            },
    )
}

/// The place that an index stands for.
pub open spec fn place(found: Option<usize>) -> Option<int> {
    match found {
        Some(k) => Some(k as int),
        None => None,
    }
}

/// Looks a member's name up among the fields of the shape.
fn find_field(shape: &MessageShape, name: &str) -> (found: Option<usize>)
    ensures
        place(found) == field_index(shape@.fields, name@, 0),
        found matches Some(k) ==> k < shape.fields.len(),
{
    let mut k: usize = 0;
    while k < shape.fields.len()
        invariant
            k <= shape.fields.len(),
            field_index(shape@.fields, name@, 0) == field_index(shape@.fields, name@, k as int),
        decreases shape.fields.len() - k,
    {
        assert(shape@.fields[k as int] == shape.fields@[k as int]@);
        if same_text(shape.fields[k].name.as_str(), name) {
            return Some(k);
        }
        k += 1;
    }
    None
}

/// Reads the value of a field of the given kind at `i`.
fn read_field_value(s: &[u8], i: usize, kind: FieldKind) -> (r: Result<
    (Value, usize),
    DecodeErrorKind,
>)
    ensures
        match field_value_at(s@, i as int, kind) {
            Ok((value, end)) => r matches Ok((read, stop)) && read@ == value && stop == end && i
                < end <= s.len(),
            Err(kind) => r matches Err(k) && k == kind,
        },
{
    if i >= s.len() {
        return Err(DecodeErrorKind::Truncated);
    }
    let c: u8 = s[i];
    if !(c == QUOTE || c == LBRACE || c == LBRACKET || c == 0x74 || c == 0x66 || c == 0x6e || c
        == MINUS || (DIGIT_ZERO <= c && c <= DIGIT_NINE)) {
        return Err(DecodeErrorKind::Malformed);
    }
    match kind {
        FieldKind::Text => {
            if c != QUOTE {
                return Err(DecodeErrorKind::TypeMismatch);
            }
            match read_string(s, i) {
                Ok((bytes, end)) => match string_from_utf8(bytes) {
                    Some(text) => Ok((Value::Text(text), end)),
                    None => Err(DecodeErrorKind::Malformed),
                },
                Err(kind) => Err(kind),
            }
        },
        FieldKind::Integer => {
            if !(c == MINUS || (DIGIT_ZERO <= c && c <= DIGIT_NINE)) {
                return Err(DecodeErrorKind::TypeMismatch);
            }
            match read_integer(s, i) {
                Ok((n, end)) => Ok((Value::Integer(n), end)),
                Err(kind) => Err(kind),
            }
        },
        FieldKind::Boolean => {
            if c == 0x74 {
                let word: Vec<u8> = vec![0x74, 0x72, 0x75, 0x65];
                assert(word@ =~= true_text());
                match read_word(s, i, word.as_slice()) {
                    Ok(end) => Ok((Value::Boolean(true), end)),
                    Err(kind) => Err(kind),
                }
            } else if c == 0x66 {
                let word: Vec<u8> = vec![0x66, 0x61, 0x6c, 0x73, 0x65];
                assert(word@ =~= false_text());
                match read_word(s, i, word.as_slice()) {
                    Ok(end) => Ok((Value::Boolean(false), end)),
                    Err(kind) => Err(kind),
                }
            } else {
                Err(DecodeErrorKind::TypeMismatch)
            }
        },
    }
}

/// Reads the value of a member at `i` into the slot of the field `found`,
/// or steps over it where the shape has no field of its name.
fn read_member_value(
    s: &[u8],
    i: usize,
    shape: &MessageShape,
    found: Option<usize>,
    slots: &mut Vec<Option<Value>>,
) -> (r: Result<usize, DecodeError>)
    requires
        old(slots)@.len() == shape@.fields.len(),
        found matches Some(k) ==> k < shape.fields.len(),
    ensures
        final(slots)@.len() == shape@.fields.len(),
        match member_value_at(s@, i as int, shape@.fields, place(found), slots_of(old(slots)@)) {
            Ok((filled, end)) => r matches Ok(stop) && stop == end && i < end <= s.len()
                && slots_of(final(slots)@) == filled,
            Err(f) => r matches Err(e) && e@ == f,
        },
{
    match found {
        Some(k) => {
            assert(shape@.fields[k as int] == shape.fields@[k as int]@);
            match read_field_value(s, i, shape.fields[k].kind) {
                Ok((value, end)) => {
                    let ghost before = slots@;
                    slots.set(k, Some(value));
                    assert(slots_of(slots@) =~= slots_of(before).update(k as int, Some(value@)));
                    Ok(end)
                },
                Err(kind) => Err(
                    DecodeError { kind, field: Some(shape.fields[k].name.clone()) },
                ),
            }
        },
        None => match skip_value(s, i, MAX_DEPTH) {
            Ok(end) => Ok(end),
            Err(kind) => Err(DecodeError { kind, field: None }),
        },
    }
}

/// Makes a message of the slots, or names the first field that is missing.
fn collect_slots(shape: &MessageShape, slots: &Vec<Option<Value>>) -> (r: Result<
    Message,
    DecodeError,
>)
    requires
        slots@.len() == shape@.fields.len(),
    ensures
        decoded(r) == collect(shape@.fields, slots_of(slots@)),
{
    let mut values: Vec<Value> = Vec::new();
    let mut k: usize = 0;
    while k < slots.len()
        invariant
            k <= slots.len(),
            slots@.len() == shape@.fields.len(),
            values@.len() == k,
            first_missing(slots_of(slots@), 0) == first_missing(slots_of(slots@), k as int),
            forall|j: int| 0 <= j < k ==> slots_of(slots@)[j] == Some((#[trigger] values@[j])@),
        decreases slots.len() - k,
    {
        match &slots[k] {
            Some(value) => {
                values.push(value.copy());
            },
            None => {
                assert(shape@.fields[k as int] == shape.fields@[k as int]@);
                return Err(
                    DecodeError {
                        kind: DecodeErrorKind::MissingField,
                        field: Some(shape.fields[k].name.clone()),
                    },
                );
            },
        }
        k += 1;
    }
    let message = Message { fields: values };
    assert(message@ =~= Seq::new(
        slots_of(slots@).len(),
        |j: int| slots_of(slots@)[j].unwrap(),
    ));
    Ok(message)
}

/// Reads the members of an object from the one whose name starts at `start`.
fn read_members(s: &[u8], start: usize, shape: &MessageShape, slots: &mut Vec<Option<Value>>) -> (r:
    Result<(), DecodeError>)
    requires
        start <= s.len(),
        old(slots)@.len() == shape@.fields.len(),
    ensures
        final(slots)@.len() == shape@.fields.len(),
        match members_from(s@, start as int, shape@.fields, slots_of(old(slots)@)) {
            Ok(filled) => r is Ok && slots_of(final(slots)@) == filled,
            Err(f) => r matches Err(e) && e@ == f,
        },
{
    let n: usize = s.len();
    let mut i: usize = start;
    loop
        invariant
            start <= i <= n,
            n == s.len(),
            slots@.len() == shape@.fields.len(),
            members_from(s@, start as int, shape@.fields, slots_of(old(slots)@)) == members_from(
                s@,
                i as int,
                shape@.fields,
                slots_of(slots@),
            ),
        decreases n - i,
    {
        let (key, key_end) = match read_string(s, i) {
            Ok(read) => read,
            Err(kind) => { return Err(DecodeError { kind, field: None }); },
        };
        let name = match string_from_utf8(key) {
            Some(name) => name,
            None => {
                return Err(DecodeError { kind: DecodeErrorKind::Malformed, field: None });
            },
        };
        let found = find_field(shape, name.as_str());
        match found {
            Some(k) => {
                assert(slots_of(slots@)[k as int].is_some() == slots@[k as int].is_some());
                if slots[k].is_some() {
                    return Err(
                        DecodeError { kind: DecodeErrorKind::Malformed, field: Some(name) },
                    );
                }
            },
            None => {},
        }
        let colon: usize = skip_spaces(s, key_end);
        if colon >= n {
            return Err(DecodeError { kind: DecodeErrorKind::Truncated, field: None });
        }
        if s[colon] != COLON {
            return Err(DecodeError { kind: DecodeErrorKind::Malformed, field: None });
        }
        let value_start: usize = skip_spaces(s, colon + 1);
        let end: usize = match read_member_value(s, value_start, shape, found, slots) {
            Ok(end) => end,
            Err(error) => { return Err(error); },
        };
        let mark: usize = skip_spaces(s, end);
        if mark >= n {
            return Err(DecodeError { kind: DecodeErrorKind::Truncated, field: None });
        }
        if s[mark] == RBRACE {
            let rest: usize = skip_spaces(s, mark + 1);
            if rest < n {
                return Err(DecodeError { kind: DecodeErrorKind::Malformed, field: None });
            }
            return Ok(());
        }
        if s[mark] != COMMA {
            return Err(DecodeError { kind: DecodeErrorKind::Malformed, field: None });
        }
        i = skip_spaces(s, mark + 1);
    }
}

/// Reads a whole body as one object with the fields of the shape.
pub fn read_object(s: &[u8], shape: &MessageShape) -> (r: Result<Message, DecodeError>)
    ensures
        decoded(r) == object_at(s@, shape@.fields),
{
    let n: usize = s.len();
    let open: usize = skip_spaces(s, 0);
    if open >= n {
        return Err(DecodeError { kind: DecodeErrorKind::Truncated, field: None });
    }
    let c: u8 = s[open];
    if c != LBRACE {
        if c == QUOTE || c == LBRACKET || c == 0x74 || c == 0x66 || c == 0x6e || c == MINUS || (
        DIGIT_ZERO <= c && c <= DIGIT_NINE) {
            return Err(DecodeError { kind: DecodeErrorKind::TypeMismatch, field: None });
        }
        return Err(DecodeError { kind: DecodeErrorKind::Malformed, field: None });
    }
    let first: usize = skip_spaces(s, open + 1);
    if first >= n {
        return Err(DecodeError { kind: DecodeErrorKind::Truncated, field: None });
    }
    let mut slots: Vec<Option<Value>> = Vec::new();
    let mut k: usize = 0;
    while k < shape.fields.len()
        invariant
            k <= shape.fields.len(),
            slots@.len() == k,
            forall|j: int| 0 <= j < k ==> (#[trigger] slots@[j]).is_none(),
        decreases shape.fields.len() - k,
    {
        slots.push(None);
        k += 1;
    }
    assert(slots_of(slots@) =~= empty_slots(shape@.fields));
    if s[first] == RBRACE {
        let rest: usize = skip_spaces(s, first + 1);
        if rest < n {
            return Err(DecodeError { kind: DecodeErrorKind::Malformed, field: None });
        }
    } else {
        match read_members(s, first, shape, &mut slots) {
            Ok(()) => {},
            Err(error) => { return Err(error); },
        }
    }
    collect_slots(shape, &slots)
}

} // verus!
