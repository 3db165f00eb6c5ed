//! Proofs about the text format: reading undoes writing, and what is read
//! fits the shape it was read for.

use crate::codec::json::{
    closing, empty_slots, field_index, field_value_at, first_missing, member_text,
    member_value_at, members_from, members_text, object_at, object_text, repeated, value_text,
    Slots,
};
use crate::codec::json_scalar::{
    after_spaces, digits_of, is_digit, is_space, lemma_digits_of, lemma_integer_at_text,
    lemma_word_at_occurrence,
};
use crate::codec::json_text::{escape, lemma_string_at_quoted, quoted, string_at};
use crate::codec::{DecodeErrorKind, DecodeFault};
use crate::schema::{conforms, distinct_names, FieldSpec, ValueSpec};
use crate::wire::{lemma_occurs_at_concat, occurs_at, COLON, COMMA, LBRACE, QUOTE, RBRACE};
use vstd::prelude::*;
use vstd::utf8::{
    decode_utf8, encode_utf8, encode_utf8_decode_utf8, encode_utf8_valid_utf8, valid_utf8,
};

verus! {

/// A literal starts with a quote and has at least two bytes.
proof fn lemma_quoted_shape(bytes: Seq<u8>)
    ensures
        quoted(bytes).len() == escape(bytes).len() + 2,
        quoted(bytes)[0] == QUOTE,
{
}

/// No written value is empty, and none starts with white space.
proof fn lemma_value_text_shape(value: ValueSpec)
    ensures
        value_text(value).len() >= 1,
        !is_space(value_text(value)[0]),
{
    match value {
        ValueSpec::Text(text) => {
            lemma_quoted_shape(encode_utf8(text));
        },
        ValueSpec::Integer(n) => {
            if n < 0 {
                lemma_digits_of((-n) as nat);
            } else {
                lemma_digits_of(n as nat);
                assert(is_digit(digits_of(n as nat)[0]));
            }
        },
        ValueSpec::Boolean(b) => {},
    }
}

/// A value that stands at `i` before a comma or a closing brace is read as
/// the value it was written from.
proof fn lemma_field_value_at_text(s: Seq<u8>, i: int, value: ValueSpec)
    requires
        occurs_at(s, i, value_text(value)),
        i + value_text(value).len() < s.len(),
        s[i + value_text(value).len()] == COMMA || s[i + value_text(value).len()] == RBRACE,
    ensures
        field_value_at(s, i, value.kind()) == Ok::<(ValueSpec, int), DecodeErrorKind>(
            (value, i + value_text(value).len()),
        ),
{
    let text = value_text(value);
    lemma_value_text_shape(value);
    assert(s[i + 0] == text[0]);
    match value {
        ValueSpec::Text(chars) => {
            let bytes = encode_utf8(chars);
            lemma_quoted_shape(bytes);
            lemma_string_at_quoted(s, i, bytes);
            encode_utf8_valid_utf8(chars);
            encode_utf8_decode_utf8(chars);
        },
        ValueSpec::Integer(n) => {
            if n < 0 {
                lemma_digits_of((-n) as nat);
            } else {
                lemma_digits_of(n as nat);
                assert(is_digit(digits_of(n as nat)[0]));
            }
            lemma_integer_at_text(s, i, n);
        },
        ValueSpec::Boolean(b) => {
            lemma_word_at_occurrence(s, i, text);
        },
    }
}

/// Among fields with distinct names, a name is found at its own position.
proof fn lemma_field_index_of_name(fields: Seq<FieldSpec>, k: int, from: int)
    requires
        distinct_names(fields),
        0 <= from <= k < fields.len(),
    ensures
        field_index(fields, fields[k].name, from) == Some(k),
    decreases k - from,
{
    if from < k {
        lemma_field_index_of_name(fields, k, from + 1);
    }
}

/// The slots once the values from the `k`-th on have been read into them.
pub open spec fn filled_from(slots: Slots, values: Seq<ValueSpec>, k: int) -> Slots {
    Seq::new(
        slots.len(),
        |j: int|
            if j >= k {
                Some(values[j])
            } else {
                slots[j]
            },
    )
}

/// Where the `k`-th member stands at `i` before a comma or a closing brace,
/// its name and its value are read, and the value goes to the `k`-th slot.
proof fn lemma_member_at_text(
    s: Seq<u8>,
    i: int,
    fields: Seq<FieldSpec>,
    values: Seq<ValueSpec>,
    k: int,
    slots: Slots,
)
    requires
        distinct_names(fields),
        conforms(values, fields),
        0 <= k < fields.len(),
        occurs_at(s, i, member_text(fields[k], values[k])),
        i + member_text(fields[k], values[k]).len() < s.len(),
        s[i + member_text(fields[k], values[k]).len()] == COMMA || s[i + member_text(
            fields[k],
            values[k],
        ).len()] == RBRACE,
    ensures
        string_at(s, i) == Ok::<(Seq<u8>, int), DecodeErrorKind>(
            (encode_utf8(fields[k].name), i + quoted(encode_utf8(fields[k].name)).len()),
        ),
        valid_utf8(encode_utf8(fields[k].name)),
        field_index(fields, decode_utf8(encode_utf8(fields[k].name)), 0) == Some(k),
        ({
            let colon = i + quoted(encode_utf8(fields[k].name)).len();
            &&& after_spaces(s, colon) == colon
            &&& 0 <= colon < s.len()
            &&& s[colon] == COLON
            &&& after_spaces(s, colon + 1) == colon + 1
            &&& member_value_at(s, colon + 1, fields, Some(k), slots) == Ok::<
                (Slots, int),
                DecodeFault,
            >((slots.update(k, Some(values[k])), i + member_text(fields[k], values[k]).len()))
        }),
{
    let name = quoted(encode_utf8(fields[k].name));
    let value = value_text(values[k]);
    let member = member_text(fields[k], values[k]);
    lemma_quoted_shape(encode_utf8(fields[k].name));
    lemma_value_text_shape(values[k]);
    assert(member =~= name + (seq![COLON] + value));
    lemma_occurs_at_concat(s, i, name, seq![COLON] + value);
    let colon = i + name.len();
    lemma_occurs_at_concat(s, colon, seq![COLON], value);
    let start = colon + 1;
    assert(seq![COLON][0] == COLON);
    assert(s[colon + 0] == COLON);
    assert(s[start + 0] == value[0]);
    lemma_string_at_quoted(s, i, encode_utf8(fields[k].name));
    encode_utf8_valid_utf8(fields[k].name);
    encode_utf8_decode_utf8(fields[k].name);
    lemma_field_index_of_name(fields, k, 0);
    assert(start + value.len() == i + member.len());
    lemma_field_value_at_text(s, start, values[k]);
}

/// How the reader goes on behind a member that it has read.
proof fn lemma_members_from_step(
    s: Seq<u8>,
    i: int,
    fields: Seq<FieldSpec>,
    slots: Slots,
    key: Seq<u8>,
    colon: int,
    filled: Slots,
    end: int,
)
    requires
        string_at(s, i) == Ok::<(Seq<u8>, int), DecodeErrorKind>((key, colon)),
        valid_utf8(key),
        !repeated(field_index(fields, decode_utf8(key), 0), slots),
        0 <= colon < s.len(),
        after_spaces(s, colon) == colon,
        s[colon] == COLON,
        after_spaces(s, colon + 1) == colon + 1,
        member_value_at(s, colon + 1, fields, field_index(fields, decode_utf8(key), 0), slots)
            == Ok::<(Slots, int), DecodeFault>((filled, end)),
        i <= end < s.len(),
        after_spaces(s, end) == end,
        after_spaces(s, end + 1) == end + 1,
    ensures
        s[end] == RBRACE ==> members_from(s, i, fields, slots) == Ok::<Slots, DecodeFault>(
            filled,
        ) || end + 1 < s.len(),
        s[end] == COMMA ==> members_from(s, i, fields, slots) == members_from(
            s,
            end + 1,
            fields,
            filled,
        ),
{
}

/// What stands behind the member before the `k`-th: the closing brace at
/// the end of the body, or a comma and the `k`-th member.
proof fn lemma_tail_at_text(
    s: Seq<u8>,
    end: int,
    fields: Seq<FieldSpec>,
    values: Seq<ValueSpec>,
    k: int,
)
    requires
        0 < k <= fields.len(),
        occurs_at(s, end, members_text(fields, values, k)),
        end + members_text(fields, values, k).len() == s.len(),
    ensures
        end < s.len(),
        after_spaces(s, end) == end,
        k == fields.len() ==> s[end] == RBRACE && end + 1 == s.len(),
        k < fields.len() ==> {
            let tail = member_text(fields[k], values[k]) + members_text(fields, values, k + 1);
            &&& s[end] == COMMA
            &&& after_spaces(s, end + 1) == end + 1
            &&& occurs_at(s, end + 1, tail)
            &&& end + 1 + tail.len() == s.len()
        },
{
    let rest = members_text(fields, values, k);
    assert(s[end + 0] == rest[0]);
    if k < fields.len() {
        let member = member_text(fields[k], values[k]);
        let after = members_text(fields, values, k + 1);
        assert(rest =~= seq![COMMA] + (member + after));
        lemma_occurs_at_concat(s, end, seq![COMMA], member + after);
        lemma_quoted_shape(encode_utf8(fields[k].name));
        assert(member =~= quoted(encode_utf8(fields[k].name)) + (seq![COLON] + value_text(
            values[k],
        )));
        assert((member + after)[0] == QUOTE);
        assert(s[end + 1 + 0] == (member + after)[0]);
    }
}

/// Where the members from the `k`-th on and the closing brace stand at `i`
/// and end the body, reading them fills the slots from the `k`-th on.
proof fn lemma_members_from_text(
    s: Seq<u8>,
    i: int,
    fields: Seq<FieldSpec>,
    values: Seq<ValueSpec>,
    k: int,
    slots: Slots,
)
    requires
        distinct_names(fields),
        conforms(values, fields),
        0 <= k < fields.len(),
        slots.len() == fields.len(),
        forall|j: int| k <= j < slots.len() ==> (#[trigger] slots[j]).is_none(),
        occurs_at(s, i, member_text(fields[k], values[k]) + members_text(fields, values, k + 1)),
        i + (member_text(fields[k], values[k]) + members_text(fields, values, k + 1)).len()
            == s.len(),
    ensures
        members_from(s, i, fields, slots) == Ok::<Slots, DecodeFault>(
            filled_from(slots, values, k),
        ),
    decreases fields.len() - k,
{
    let member = member_text(fields[k], values[k]);
    let end = i + member.len();
    let key = encode_utf8(fields[k].name);
    let colon = i + quoted(key).len();
    let filled = slots.update(k, Some(values[k]));
    lemma_occurs_at_concat(s, i, member, members_text(fields, values, k + 1));
    lemma_tail_at_text(s, end, fields, values, k + 1);
    lemma_member_at_text(s, i, fields, values, k, slots);
    assert(slots[k].is_none());
    if k + 1 == fields.len() {
        assert(after_spaces(s, end + 1) == end + 1);
        lemma_members_from_step(s, i, fields, slots, key, colon, filled, end);
        assert(filled =~= filled_from(slots, values, k));
    } else {
        lemma_members_from_step(s, i, fields, slots, key, colon, filled, end);
        lemma_members_from_text(s, end + 1, fields, values, k + 1, filled);
        assert(filled_from(filled, values, k + 1) =~= filled_from(slots, values, k));
    }
}

/// Slots that are all filled lack nothing.
proof fn lemma_nothing_missing(slots: Slots, from: int)
    requires
        0 <= from,
        forall|j: int| from <= j < slots.len() ==> (#[trigger] slots[j]).is_some(),
    ensures
        first_missing(slots, from).is_none(),
    decreases slots.len() - from,
{
    if from < slots.len() {
        lemma_nothing_missing(slots, from + 1);
    }
}

/// Reading a written message gives the message back: for every message
/// that fits its shape, whose fields have distinct names.
pub proof fn lemma_object_round_trip(fields: Seq<FieldSpec>, values: Seq<ValueSpec>)
    requires
        distinct_names(fields),
        conforms(values, fields),
    ensures
        object_at(object_text(fields, values), fields) == Ok::<Seq<ValueSpec>, DecodeFault>(
            values,
        ),
{
    let s = object_text(fields, values);
    let members = members_text(fields, values, 0);
    assert(s[0] == LBRACE);
    assert(after_spaces(s, 0) == 0);
    if fields.len() == 0 {
        assert(s =~= seq![LBRACE, RBRACE]);
        assert(after_spaces(s, 1) == 1);
        assert(after_spaces(s, 2) == 2);
        assert(first_missing(empty_slots(fields), 0).is_none());
        assert(Seq::new(
            empty_slots(fields).len(),
            |k: int| empty_slots(fields)[k].unwrap(),
        ) =~= values);
    } else {
        let member = member_text(fields[0], values[0]);
        let rest = members_text(fields, values, 1);
        lemma_quoted_shape(encode_utf8(fields[0].name));
        assert(member =~= quoted(encode_utf8(fields[0].name)) + (seq![COLON] + value_text(
            values[0],
        )));
        assert(members == member + rest);
        assert(s[1] == members[0]);
        assert(members[0] == QUOTE);
        assert(after_spaces(s, 1) == 1);
        crate::wire::lemma_occurs_at_end(seq![LBRACE], members);
        lemma_members_from_text(s, 1, fields, values, 0, empty_slots(fields));
        let filled = filled_from(empty_slots(fields), values, 0);
        lemma_nothing_missing(filled, 0);
        assert(Seq::new(filled.len(), |k: int| filled[k].unwrap()) =~= values);
    }
}

/// Every slot has the length of the shape and holds, where it holds
/// anything, a value of the kind of its field.
pub open spec fn slots_fit(fields: Seq<FieldSpec>, slots: Slots) -> bool {
    &&& slots.len() == fields.len()
    &&& forall|k: int|
        0 <= k < slots.len() ==> ((#[trigger] slots[k]) matches Some(value) ==> value.kind()
            == fields[k].kind)
}

/// A name is found among the fields that exist.
proof fn lemma_field_index_range(fields: Seq<FieldSpec>, name: Seq<char>, from: int)
    requires
        0 <= from,
    ensures
        field_index(fields, name, from) matches Some(k) ==> from <= k < fields.len(),
    decreases fields.len() - from,
{
    if from < fields.len() && fields[from].name != name {
        lemma_field_index_range(fields, name, from + 1);
    }
}

/// Reading one member keeps the slots fit.
proof fn lemma_member_value_fits(
    s: Seq<u8>,
    i: int,
    fields: Seq<FieldSpec>,
    found: Option<int>,
    slots: Slots,
)
    requires
        slots_fit(fields, slots),
        found matches Some(k) ==> 0 <= k < fields.len(),
    ensures
        member_value_at(s, i, fields, found, slots) matches Ok((filled, _)) ==> slots_fit(
            fields,
            filled,
        ),
{
}

/// Reading members keeps the slots fit.
proof fn lemma_members_from_fit(s: Seq<u8>, i: int, fields: Seq<FieldSpec>, slots: Slots)
    requires
        slots_fit(fields, slots),
    ensures
        members_from(s, i, fields, slots) matches Ok(filled) ==> slots_fit(fields, filled),
    decreases s.len() - i,
{
    match string_at(s, i) {
        Ok((key, key_end)) => {
            let found = field_index(fields, decode_utf8(key), 0);
            let colon = after_spaces(s, key_end);
            let start = after_spaces(s, colon + 1);
            lemma_field_index_range(fields, decode_utf8(key), 0);
            if 0 <= colon < s.len() && s[colon] == COLON {
                lemma_member_value_fits(s, start, fields, found, slots);
                match member_value_at(s, start, fields, found, slots) {
                    Ok((filled, end)) => {
                        let mark = after_spaces(s, end);
                        let next = after_spaces(s, mark + 1);
                        if 0 <= mark < s.len() && s[mark] == COMMA && i < next <= s.len() {
                            lemma_members_from_fit(s, next, fields, filled);
                        }
                    },
                    Err(_) => {},
                }
            }
        },
        Err(_) => {},
    }
}

/// Where no slot is missing, every slot is filled.
proof fn lemma_first_missing(slots: Slots, from: int)
    requires
        0 <= from,
        first_missing(slots, from).is_none(),
    ensures
        forall|j: int| from <= j < slots.len() ==> (#[trigger] slots[j]).is_some(),
    decreases slots.len() - from,
{
    if from < slots.len() {
        lemma_first_missing(slots, from + 1);
    }
}

/// A message that was read as an object fits the shape it was read for.
pub proof fn lemma_object_fits(s: Seq<u8>, fields: Seq<FieldSpec>)
    ensures
        object_at(s, fields) matches Ok(values) ==> conforms(values, fields),
{
    let open = after_spaces(s, 0);
    let first = after_spaces(s, open + 1);
    let empty = empty_slots(fields);
    assert(slots_fit(fields, empty));
    if 0 <= open < s.len() && s[open] == LBRACE && 0 <= first < s.len() {
        let read = if s[first] == RBRACE {
            closing(s, first + 1, empty)
        } else {
            members_from(s, first, fields, empty)
        };
        lemma_members_from_fit(s, first, fields, empty);
        match read {
            Ok(slots) => {
                assert(slots_fit(fields, slots));
                if first_missing(slots, 0).is_none() {
                    lemma_first_missing(slots, 0);
                    let values = Seq::new(slots.len(), |k: int| slots[k].unwrap());
                    assert forall|k: int| 0 <= k < values.len() implies (#[trigger] values[k]).kind()
                        == fields[k].kind by {
                        assert(slots[k].is_some());
                    }
                }
            },
            Err(_) => {},
        }
    }
}

} // verus!
