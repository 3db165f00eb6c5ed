//! String literals of the text format: how bytes are quoted and escaped on
//! the way out, and how a literal is read back.

use crate::codec::DecodeErrorKind;
use crate::wire::{occurs_at, BACKSLASH, QUOTE, SLASH};
use vstd::prelude::*;
use vstd::utf8::{encode_scalar, is_scalar};

verus! {

/// What a scanner yields: the bytes it read and the offset behind them.
pub type Scanned = Result<(Seq<u8>, int), DecodeErrorKind>;

/// The lower-case hexadecimal digit for a value below sixteen.
pub open spec fn hex_digit(n: u8) -> u8 {
    if n < 10 {
        (0x30 + n) as u8
    } else {
        (0x57 + n) as u8
    }
}

/// The value of a hexadecimal digit of either case.
pub open spec fn hex_value(b: u8) -> Option<int> {
    if 0x30 <= b <= 0x39 {
        Some(b - 0x30)
    } else if 0x61 <= b <= 0x66 {
        Some(b - 0x57)
    } else if 0x41 <= b <= 0x46 {
        Some(b - 0x37)
    } else {
        None
    }
}

/// The value of the four hexadecimal digits at `i`, if they are such.
pub open spec fn hex_quad(s: Seq<u8>, i: int) -> Option<int> {
    match (hex_value(s[i]), hex_value(s[i + 1]), hex_value(s[i + 2]), hex_value(s[i + 3])) {
        (Some(a), Some(b), Some(c), Some(d)) => Some(((a * 16 + b) * 16 + c) * 16 + d),
        _ => None,
    }
}

/// How one byte of a string is written between the quotes.
pub open spec fn escape_byte(b: u8) -> Seq<u8> {
    if b == QUOTE {
        seq![BACKSLASH, QUOTE]
    } else if b == BACKSLASH {
        seq![BACKSLASH, BACKSLASH]
    } else if b == 0x08 {
        seq![BACKSLASH, 0x62u8]
    } else if b == 0x0c {
        seq![BACKSLASH, 0x66u8]
    } else if b == 0x0a {
        seq![BACKSLASH, 0x6eu8]
    } else if b == 0x0d {
        seq![BACKSLASH, 0x72u8]
    } else if b == 0x09 {
        seq![BACKSLASH, 0x74u8]
    } else if b < 0x20 {
        seq![BACKSLASH, 0x75u8, 0x30u8, 0x30u8, hex_digit(b / 16), hex_digit(b % 16)]
    } else {
        seq![b]
    }
}

/// The escaped form of a byte string, without the quotes.
pub open spec fn escape(bytes: Seq<u8>) -> Seq<u8>
    decreases bytes.len(),
{
    if bytes.len() == 0 {
        seq![]
    } else {
        escape_byte(bytes[0]) + escape(bytes.drop_first())
    }
}

/// A byte string as a literal: escaped, between quotes.
pub open spec fn quoted(bytes: Seq<u8>) -> Seq<u8> {
    seq![QUOTE] + escape(bytes) + seq![QUOTE]
}

/// The byte that a one-letter escape stands for.
pub open spec fn simple_escape(c: u8) -> Option<u8> {
    if c == QUOTE {
        Some(QUOTE)
    } else if c == BACKSLASH {
        Some(BACKSLASH)
    } else if c == SLASH {
        Some(SLASH)
    } else if c == 0x62 {
        Some(0x08u8)
    } else if c == 0x66 {
        Some(0x0cu8)
    } else if c == 0x6e {
        Some(0x0au8)
    } else if c == 0x72 {
        Some(0x0du8)
    } else if c == 0x74 {
        Some(0x09u8)
    } else {
        None
    }
}

/// The code point that a pair of surrogates stands for.
pub open spec fn surrogate_pair(high: int, low: int) -> int {
    0x10000 + (high - 0xD800) * 0x400 + (low - 0xDC00)
}

/// Reads the second half of a surrogate pair, written as `\uXXXX` at `i`.
pub open spec fn low_surrogate_at(s: Seq<u8>, i: int, high: int) -> Scanned {
    if i + 6 > s.len() {
        Err(DecodeErrorKind::Truncated)
    } else if s[i] != BACKSLASH || s[i + 1] != 0x75 {
        Err(DecodeErrorKind::Malformed)
    } else {
        match hex_quad(s, i + 2) {
            Some(low) => if 0xDC00 <= low < 0xE000 {
                Ok((encode_scalar(surrogate_pair(high, low) as u32), i + 6))
            } else {
                Err(DecodeErrorKind::Malformed)
            },
            None => Err(DecodeErrorKind::Malformed),
        }
    }
}

/// Reads the four digits of a `\u` escape at `i`, and the second half of a
/// surrogate pair where they start one. Yields the UTF-8 form of the code point.
pub open spec fn unicode_at(s: Seq<u8>, i: int) -> Scanned {
    if i + 4 > s.len() {
        Err(DecodeErrorKind::Truncated)
    } else {
        match hex_quad(s, i) {
            Some(unit) => if 0xD800 <= unit < 0xDC00 {
                low_surrogate_at(s, i + 4, unit)
            } else if 0xDC00 <= unit < 0xE000 {
                Err(DecodeErrorKind::Malformed)
            } else {
                Ok((encode_scalar(unit as u32), i + 4))
            },
            None => Err(DecodeErrorKind::Malformed),
        }
    }
}

/// Reads the escape whose backslash stands at `i`.
pub open spec fn escape_at(s: Seq<u8>, i: int) -> Scanned {
    if i + 1 >= s.len() {
        Err(DecodeErrorKind::Truncated)
    } else if s[i + 1] == 0x75 {
        unicode_at(s, i + 2)
    } else {
        match simple_escape(s[i + 1]) {
            Some(b) => Ok((seq![b], i + 2)),
            None => Err(DecodeErrorKind::Malformed),
        }
    }
}

/// Puts `head` in front of what a scanner read.
pub open spec fn prepend(head: Seq<u8>, scanned: Scanned) -> Scanned {
    match scanned {
        Ok((rest, end)) => Ok((head + rest, end)),
        Err(kind) => Err(kind),
    }
}

/// Reads the inside of a literal from `i` up to and including the closing
/// quote. Control bytes must be escaped; every other byte stands for itself.
pub open spec fn chars_from(s: Seq<u8>, i: int) -> Scanned
    decreases s.len() - i,
{
    if i < 0 || i >= s.len() {
        Err(DecodeErrorKind::Truncated)
    } else if s[i] == QUOTE {
        Ok((Seq::empty(), i + 1))
    } else if s[i] == BACKSLASH {
        match escape_at(s, i) {
            Ok((bytes, next)) => if next > i {
                prepend(bytes, chars_from(s, next))
            } else {
                Err(DecodeErrorKind::Malformed)
            },
            Err(kind) => Err(kind),
        }
    } else if s[i] < 0x20 {
        Err(DecodeErrorKind::Malformed)
    } else {
        prepend(seq![s[i]], chars_from(s, i + 1))
    }
}

/// Reads the literal whose opening quote stands at `i`.
pub open spec fn string_at(s: Seq<u8>, i: int) -> Scanned {
    if i < 0 || i >= s.len() {
        Err(DecodeErrorKind::Truncated)
    } else if s[i] != QUOTE {
        Err(DecodeErrorKind::Malformed)
    } else {
        chars_from(s, i + 1)
    }
}

/// Putting two heads in front, one after the other, is putting their
/// concatenation in front.
pub proof fn lemma_prepend_twice(a: Seq<u8>, b: Seq<u8>, scanned: Scanned)
    ensures
        prepend(a, prepend(b, scanned)) == prepend(a + b, scanned),
{
    match scanned {
        Ok((rest, end)) => {
            assert(a + (b + rest) =~= (a + b) + rest);
        },
        Err(_) => {},
    }
}

/// Escaping goes byte by byte, also from the end.
pub proof fn lemma_escape_push(bytes: Seq<u8>, b: u8)
    ensures
        escape(bytes.push(b)) == escape(bytes) + escape_byte(b),
    decreases bytes.len(),
{
    if bytes.len() == 0 {
        assert(bytes.push(b).drop_first() =~= Seq::<u8>::empty());
        assert(escape(bytes.push(b)) =~= escape_byte(b) + escape(Seq::<u8>::empty()));
        assert(escape(bytes) + escape_byte(b) =~= escape_byte(b));
        assert(escape_byte(b) + escape(Seq::<u8>::empty()) =~= escape_byte(b));
    } else {
        lemma_escape_push(bytes.drop_first(), b);
        assert(bytes.push(b).drop_first() =~= bytes.drop_first().push(b));
        assert(escape_byte(bytes[0]) + (escape(bytes.drop_first()) + escape_byte(b)) =~= (
        escape_byte(bytes[0]) + escape(bytes.drop_first())) + escape_byte(b));
    }
}

/// The lower-case hexadecimal digit for a value below sixteen.
fn hex_digit_of(n: u8) -> (digit: u8)
    requires
        n < 16,
    ensures
        digit == hex_digit(n),
{
    if n < 10 {
        0x30 + n
    } else {
        0x57 + n
    }
}

/// Appends one byte of a string to `out` as it is written between quotes.
fn write_escaped(out: &mut Vec<u8>, b: u8)
    ensures
        final(out)@ == old(out)@ + escape_byte(b),
{
    let ghost before = out@;
    if b == QUOTE || b == BACKSLASH {
        out.push(BACKSLASH);
        out.push(b);
    } else if b == 0x08 {
        out.push(BACKSLASH);
        out.push(0x62);
    } else if b == 0x0c {
        out.push(BACKSLASH);
        out.push(0x66);
    } else if b == 0x0a {
        out.push(BACKSLASH);
        out.push(0x6e);
    } else if b == 0x0d {
        out.push(BACKSLASH);
        out.push(0x72);
    } else if b == 0x09 {
        out.push(BACKSLASH);
        out.push(0x74);
    } else if b < 0x20 {
        out.push(BACKSLASH);
        out.push(0x75);
        out.push(0x30);
        out.push(0x30);
        out.push(hex_digit_of(b / 16));
        out.push(hex_digit_of(b % 16));
    } else {
        out.push(b);
    }
    assert(out@ =~= before + escape_byte(b));
}

/// Appends `bytes` to `out` as a quoted literal.
pub fn write_string(out: &mut Vec<u8>, bytes: &[u8])
    ensures
        final(out)@ == old(out)@ + quoted(bytes@),
{
    out.push(QUOTE);
    let mut i: usize = 0;
    while i < bytes.len()
        invariant
            i <= bytes.len(),
            out@ == old(out)@ + seq![QUOTE] + escape(bytes@.take(i as int)),
        decreases bytes.len() - i,
    {
        write_escaped(out, bytes[i]);
        proof {
            lemma_escape_push(bytes@.take(i as int), bytes@[i as int]);
            assert(bytes@.take(i + 1) =~= bytes@.take(i as int).push(bytes@[i as int]));
            assert(old(out)@ + seq![QUOTE] + escape(bytes@.take(i as int)) + escape_byte(
                bytes@[i as int],
            ) =~= old(out)@ + seq![QUOTE] + (escape(bytes@.take(i as int)) + escape_byte(
                bytes@[i as int],
            )));
        }
        i += 1;
    }
    out.push(QUOTE);
    assert(bytes@.take(i as int) =~= bytes@);
    assert(out@ =~= old(out)@ + quoted(bytes@));
}

/// The value of a hexadecimal digit.
fn read_hex(b: u8) -> (value: Option<u32>)
    ensures
        match hex_value(b) {
            Some(v) => value == Some(v as u32) && 0 <= v < 16,
            None => value.is_none(),
        },
{
    if 0x30 <= b && b <= 0x39 {
        Some((b - 0x30) as u32)
    } else if 0x61 <= b && b <= 0x66 {
        Some((b - 0x57) as u32)
    } else if 0x41 <= b && b <= 0x46 {
        Some((b - 0x37) as u32)
    } else {
        None
    }
}

/// The value of the four hexadecimal digits at `i`.
fn read_hex_quad(s: &[u8], i: usize) -> (value: Option<u32>)
    requires
        i + 4 <= s.len(),
    ensures
        match hex_quad(s@, i as int) {
            Some(v) => value == Some(v as u32) && 0 <= v < 0x10000,
            None => value.is_none(),
        },
{
    let a: u32 = match read_hex(s[i]) {
        Some(v) => v,
        None => { return None; },
    };
    let b: u32 = match read_hex(s[i + 1]) {
        Some(v) => v,
        None => { return None; },
    };
    let c: u32 = match read_hex(s[i + 2]) {
        Some(v) => v,
        None => { return None; },
    };
    let d: u32 = match read_hex(s[i + 3]) {
        Some(v) => v,
        None => { return None; },
    };
    Some(((a * 16 + b) * 16 + c) * 16 + d)
}

/// Appends the UTF-8 form of a code point to `out`.
fn push_scalar(out: &mut Vec<u8>, scalar: u32)
    requires
        is_scalar(scalar),
    ensures
        final(out)@ == old(out)@ + encode_scalar(scalar),
{
    let ghost before = out@;
    if scalar <= 0x7F {
        assert(scalar & 0x7F <= 0x7F) by (bit_vector);
        out.push((scalar & 0x7F) as u8);
    } else if scalar <= 0x7FF {
        assert((scalar >> 6) & 0x1F <= 0x1F) by (bit_vector);
        assert(scalar & 0x3F <= 0x3F) by (bit_vector);
        out.push(0xC0 | ((scalar >> 6) & 0x1F) as u8);
        out.push(0x80 | (scalar & 0x3F) as u8);
    } else if scalar <= 0xFFFF {
        assert((scalar >> 12) & 0x0F <= 0x0F) by (bit_vector);
        assert((scalar >> 6) & 0x3F <= 0x3F) by (bit_vector);
        assert(scalar & 0x3F <= 0x3F) by (bit_vector);
        out.push(0xE0 | ((scalar >> 12) & 0x0F) as u8);
        out.push(0x80 | ((scalar >> 6) & 0x3F) as u8);
        out.push(0x80 | (scalar & 0x3F) as u8);
    } else {
        assert((scalar >> 18) & 0x7 <= 0x7) by (bit_vector);
        assert((scalar >> 12) & 0x3F <= 0x3F) by (bit_vector);
        assert((scalar >> 6) & 0x3F <= 0x3F) by (bit_vector);
        assert(scalar & 0x3F <= 0x3F) by (bit_vector);
        out.push(0xF0 | ((scalar >> 18) & 0x7) as u8);
        out.push(0x80 | ((scalar >> 12) & 0x3F) as u8);
        out.push(0x80 | ((scalar >> 6) & 0x3F) as u8);
        out.push(0x80 | (scalar & 0x3F) as u8);
    }
    assert(out@ =~= before + encode_scalar(scalar));
}

/// Reads the escape whose backslash stands at `i` and appends the bytes it
/// stands for to `out`. Returns the offset behind the escape.
fn read_escape(s: &[u8], i: usize, out: &mut Vec<u8>) -> (r: Result<usize, DecodeErrorKind>)
    requires
        i < s.len(),
    ensures
        match escape_at(s@, i as int) {
            Ok((bytes, next)) => r == Ok::<usize, DecodeErrorKind>(next as usize) && i < next
                <= s.len() && final(out)@ == old(out)@ + bytes,
            Err(kind) => r == Err::<usize, DecodeErrorKind>(kind),
        },
{
    let n: usize = s.len();
    if n - i < 2 {
        return Err(DecodeErrorKind::Truncated);
    }
    let c: u8 = s[i + 1];
    if c != 0x75 {
        let b: u8 = if c == QUOTE {
            QUOTE
        } else if c == BACKSLASH {
            BACKSLASH
        } else if c == SLASH {
            SLASH
        } else if c == 0x62 {
            0x08
        } else if c == 0x66 {
            0x0c
        } else if c == 0x6e {
            0x0a
        } else if c == 0x72 {
            0x0d
        } else if c == 0x74 {
            0x09
        } else {
            return Err(DecodeErrorKind::Malformed);
        };
        let ghost before = out@;
        out.push(b);
        assert(out@ =~= before + seq![b]);
        return Ok(i + 2);
    }
    if n - i < 6 {
        return Err(DecodeErrorKind::Truncated);
    }
    let unit: u32 = match read_hex_quad(s, i + 2) {
        Some(v) => v,
        None => { return Err(DecodeErrorKind::Malformed); },
    };
    if 0xD800 <= unit && unit < 0xDC00 {
        if n - i < 12 {
            return Err(DecodeErrorKind::Truncated);
        }
        if s[i + 6] != BACKSLASH || s[i + 7] != 0x75 {
            return Err(DecodeErrorKind::Malformed);
        }
        let low: u32 = match read_hex_quad(s, i + 8) {
            Some(v) => v,
            None => { return Err(DecodeErrorKind::Malformed); },
        };
        if !(0xDC00 <= low && low < 0xE000) {
            return Err(DecodeErrorKind::Malformed);
        }
        let scalar: u32 = 0x10000 + (unit - 0xD800) * 0x400 + (low - 0xDC00);
        push_scalar(out, scalar);
        Ok(i + 12)
    } else if 0xDC00 <= unit && unit < 0xE000 {
        Err(DecodeErrorKind::Malformed)
    } else {
        push_scalar(out, unit);
        Ok(i + 6)
    }
}

/// Reads the literal whose opening quote stands at `start`: the bytes it
/// stands for and the offset behind its closing quote.
pub fn read_string(s: &[u8], start: usize) -> (r: Result<(Vec<u8>, usize), DecodeErrorKind>)
    ensures
        match string_at(s@, start as int) {
            Ok((bytes, end)) => r matches Ok((read, stop)) && read@ == bytes && stop == end && start
                < end <= s.len(),
            Err(kind) => r matches Err(k) && k == kind,
        },
{
    let n: usize = s.len();
    if start >= n {
        return Err(DecodeErrorKind::Truncated);
    }
    if s[start] != QUOTE {
        return Err(DecodeErrorKind::Malformed);
    }
    let mut out: Vec<u8> = Vec::new();
    let mut j: usize = start + 1;
    while j < n
        invariant
            start < j <= n,
            n == s.len(),
            string_at(s@, start as int) == prepend(out@, chars_from(s@, j as int)),
        decreases n - j,
    {
        let c: u8 = s[j];
        if c == QUOTE {
            assert(out@ + Seq::<u8>::empty() =~= out@);
            return Ok((out, j + 1));
        } else if c == BACKSLASH {
            let ghost before = out@;
            match read_escape(s, j, &mut out) {
                Ok(next) => {
                    proof {
                        let bytes = escape_at(s@, j as int).unwrap().0;
                        lemma_prepend_twice(before, bytes, chars_from(s@, next as int));
                    }
                    j = next;
                },
                Err(kind) => {
                    return Err(kind);
                },
            }
        } else if c < 0x20 {
            return Err(DecodeErrorKind::Malformed);
        } else {
            proof {
                lemma_prepend_twice(out@, seq![c], chars_from(s@, j + 1));
                assert(out@ + seq![c] =~= out@.push(c));
            }
            out.push(c);
            j += 1;
        }
    }
    Err(DecodeErrorKind::Truncated)
}

/// A hexadecimal digit stands for the value it was written for.
proof fn lemma_hex_digit_value(n: u8)
    requires
        n < 16,
    ensures
        hex_value(hex_digit(n)) == Some(n as int),
{
}

/// The UTF-8 form of a code point below 128 is the one byte of its number.
proof fn lemma_ascii_scalar(b: u8)
    requires
        b < 0x80,
    ensures
        encode_scalar(b as u32) == seq![b],
{
    let scalar: u32 = b as u32;
    assert(scalar <= 0x7F ==> (scalar & 0x7F) == scalar) by (bit_vector);
    assert(encode_scalar(scalar) =~= seq![b]);
}

/// A control byte that was written as `\u00XY` is read back from there.
proof fn lemma_escape_at_control(s: Seq<u8>, i: int, b: u8)
    requires
        b < 0x20,
        0 <= i,
        i + 6 <= s.len(),
        s[i] == BACKSLASH,
        s[i + 1] == 0x75,
        s[i + 2] == 0x30,
        s[i + 3] == 0x30,
        s[i + 4] == hex_digit(b / 16),
        s[i + 5] == hex_digit(b % 16),
    ensures
        escape_at(s, i) == Ok::<(Seq<u8>, int), DecodeErrorKind>((seq![b], i + 6)),
{
    lemma_hex_digit_value(b / 16);
    lemma_hex_digit_value(b % 16);
    assert(hex_value(0x30) == Some(0int));
    assert(hex_quad(s, i + 2) == Some(b as int));
    lemma_ascii_scalar(b);
    assert(unicode_at(s, i + 2) == Ok::<(Seq<u8>, int), DecodeErrorKind>((seq![b], i + 6)));
}

/// A byte that was written as a backslash and one letter is read back
/// from there.
proof fn lemma_escape_at_letter(s: Seq<u8>, i: int, b: u8)
    requires
        b == QUOTE || b == BACKSLASH || b == 0x08 || b == 0x0c || b == 0x0a || b == 0x0d || b
            == 0x09,
        0 <= i,
        i + 2 <= s.len(),
        s[i] == escape_byte(b)[0],
        s[i + 1] == escape_byte(b)[1],
    ensures
        escape_at(s, i) == Ok::<(Seq<u8>, int), DecodeErrorKind>((seq![b], i + 2)),
{
}

/// One step of the scanner reads one escaped byte back: where the escaped
/// form of `b` stands at `i`, the scanner goes on behind it with `b` read.
proof fn lemma_chars_from_step(s: Seq<u8>, i: int, b: u8)
    requires
        occurs_at(s, i, escape_byte(b)),
    ensures
        chars_from(s, i) == prepend(seq![b], chars_from(s, i + escape_byte(b).len())),
{
    let head = escape_byte(b);
    assert(s[i + 0] == head[0]);
    if b == QUOTE || b == BACKSLASH || b == 0x08 || b == 0x0c || b == 0x0a || b == 0x0d || b
        == 0x09 {
        assert(s[i + 1] == head[1]);
        lemma_escape_at_letter(s, i, b);
    } else if b < 0x20 {
        assert(s[i + 1] == head[1]);
        assert(s[i + 2] == head[2]);
        assert(s[i + 3] == head[3]);
        assert(s[i + 4] == head[4]);
        assert(s[i + 5] == head[5]);
        lemma_escape_at_control(s, i, b);
    } else {
        assert(s[i] == b);
    }
}

/// Reading undoes escaping: where the escaped form of `bytes` and a closing
/// quote stand at `i`, the scanner yields `bytes` and stops behind the quote.
pub proof fn lemma_chars_from_escaped(s: Seq<u8>, i: int, bytes: Seq<u8>)
    requires
        occurs_at(s, i, escape(bytes) + seq![QUOTE]),
    ensures
        chars_from(s, i) == Ok::<(Seq<u8>, int), DecodeErrorKind>(
            (bytes, i + escape(bytes).len() + 1),
        ),
    decreases bytes.len(),
{
    if bytes.len() == 0 {
        assert((escape(bytes) + seq![QUOTE])[0] == QUOTE);
        assert(s[i + 0] == QUOTE);
        assert(bytes =~= Seq::<u8>::empty());
    } else {
        let b = bytes[0];
        let head = escape_byte(b);
        let rest = bytes.drop_first();
        let tail = escape(rest) + seq![QUOTE];
        assert(escape(bytes) + seq![QUOTE] =~= head + tail);
        crate::wire::lemma_occurs_at_concat(s, i, head, tail);
        lemma_chars_from_escaped(s, i + head.len(), rest);
        lemma_chars_from_step(s, i, b);
        assert(seq![b] + rest =~= bytes);
        assert(escape(bytes).len() == head.len() + escape(rest).len());
    }
}

/// Reading undoes quoting.
pub proof fn lemma_string_at_quoted(s: Seq<u8>, i: int, bytes: Seq<u8>)
    requires
        occurs_at(s, i, quoted(bytes)),
    ensures
        string_at(s, i) == Ok::<(Seq<u8>, int), DecodeErrorKind>((bytes, i + quoted(bytes).len())),
{
    let inner = escape(bytes) + seq![QUOTE];
    assert(quoted(bytes) =~= seq![QUOTE] + inner);
    crate::wire::lemma_occurs_at_concat(s, i, seq![QUOTE], inner);
    assert(seq![QUOTE][0] == QUOTE);
    assert(s[i + 0] == QUOTE);
    lemma_chars_from_escaped(s, i + 1, bytes);
}

} // verus!
