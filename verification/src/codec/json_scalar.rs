//! The small lexical elements of the text format: white space, the words
//! `true`, `false` and `null`, and integers in decimal.

use crate::codec::DecodeErrorKind;
use crate::wire::{occurs_at, DIGIT_NINE, DIGIT_ZERO, DOT, MINUS};
use vstd::prelude::*;

verus! {

/// Space, tab, line feed and carriage return may stand between tokens.
pub open spec fn is_space(b: u8) -> bool {
    b == 0x20 || b == 0x09 || b == 0x0a || b == 0x0d
}

/// The first offset from `i` on that holds no white space.
pub open spec fn after_spaces(s: Seq<u8>, i: int) -> int
    decreases s.len() - i,
{
    if 0 <= i < s.len() && is_space(s[i]) {
        after_spaces(s, i + 1)
    } else {
        i
    }
}

/// Steps over white space.
pub fn skip_spaces(s: &[u8], i: usize) -> (next: usize)
    ensures
        next == after_spaces(s@, i as int),
        i <= next,
        i <= s.len() ==> next <= s.len(),
        next < s.len() ==> !is_space(s@[next as int]),
{
    let mut j: usize = i;
    while j < s.len() && (s[j] == 0x20 || s[j] == 0x09 || s[j] == 0x0a || s[j] == 0x0d)
        invariant
            i <= j,
            i <= s.len() ==> j <= s.len(),
            after_spaces(s@, i as int) == after_spaces(s@, j as int),
        decreases s.len() - j,
    {
        j += 1;
    }
    j
}

pub open spec fn true_text() -> Seq<u8> {
    seq![0x74u8, 0x72u8, 0x75u8, 0x65u8]
}

pub open spec fn false_text() -> Seq<u8> {
    seq![0x66u8, 0x61u8, 0x6cu8, 0x73u8, 0x65u8]
}

pub open spec fn null_text() -> Seq<u8> {
    seq![0x6eu8, 0x75u8, 0x6cu8, 0x6cu8]
}

/// Reads the word `word` at `i` and yields the offset behind it.
pub open spec fn word_at(s: Seq<u8>, i: int, word: Seq<u8>) -> Result<int, DecodeErrorKind>
    decreases word.len(),
{
    if word.len() == 0 {
        Ok(i)
    } else if i < 0 || i >= s.len() {
        Err(DecodeErrorKind::Truncated)
    } else if s[i] != word[0] {
        Err(DecodeErrorKind::Malformed)
    } else {
        word_at(s, i + 1, word.drop_first())
    }
}

/// Reads the word `word` at `i`.
pub fn read_word(s: &[u8], i: usize, word: &[u8]) -> (r: Result<usize, DecodeErrorKind>)
    ensures
        match word_at(s@, i as int, word@) {
            Ok(end) => r matches Ok(stop) && stop == end && end == i + word@.len() && (i
                <= s.len() ==> end <= s.len()),
            Err(kind) => r == Err::<usize, DecodeErrorKind>(kind),
        },
{
    if i > s.len() {
        return if word.len() == 0 {
            Ok(i)
        } else {
            Err(DecodeErrorKind::Truncated)
        };
    }
    let mut k: usize = 0;
    assert(word@.skip(0) =~= word@);
    while k < word.len()
        invariant
            k <= word.len(),
            i + k <= s.len(),
            word_at(s@, i as int, word@) == word_at(s@, i + k, word@.skip(k as int)),
        decreases word.len() - k,
    {
        if i + k >= s.len() {
            return Err(DecodeErrorKind::Truncated);
        }
        if s[i + k] != word[k] {
            return Err(DecodeErrorKind::Malformed);
        }
        assert(word@.skip(k as int).drop_first() =~= word@.skip(k + 1));
        k += 1;
    }
    assert(word@.skip(k as int).len() == 0);
    Ok(i + k)
}

/// A word that stands at an offset is read there.
pub proof fn lemma_word_at_occurrence(s: Seq<u8>, i: int, word: Seq<u8>)
    requires
        occurs_at(s, i, word),
    ensures
        word_at(s, i, word) == Ok::<int, DecodeErrorKind>(i + word.len()),
    decreases word.len(),
{
    if word.len() > 0 {
        assert(s[i + 0] == word[0]);
        assert forall|k: int| 0 <= k < word.drop_first().len() implies s[i + 1 + k]
            == #[trigger] word.drop_first()[k] by {
            assert(s[i + (k + 1)] == word[k + 1]);
        }
        lemma_word_at_occurrence(s, i + 1, word.drop_first());
    }
}

pub open spec fn is_digit(b: u8) -> bool {
    DIGIT_ZERO <= b <= DIGIT_NINE
}

/// The decimal digits of a natural number, most significant first.
pub open spec fn digits_of(n: nat) -> Seq<u8>
    decreases n,
{
    if n < 10 {
        seq![(DIGIT_ZERO + n) as u8]
    } else {
        digits_of(n / 10).push((DIGIT_ZERO + n % 10) as u8)
    }
}

/// An integer in decimal, with a minus sign where it is negative.
pub open spec fn integer_text(v: int) -> Seq<u8> {
    if v < 0 {
        seq![MINUS] + digits_of((-v) as nat)
    } else {
        digits_of(v as nat)
    }
}

/// The number that a run of decimal digits stands for.
pub open spec fn decimal_value(digits: Seq<u8>) -> nat
    decreases digits.len(),
{
    if digits.len() == 0 {
        0
    } else {
        decimal_value(digits.drop_last()) * 10 + (digits.last() - DIGIT_ZERO) as nat
    }
}

/// The first offset from `i` on that holds no digit.
pub open spec fn digits_end(s: Seq<u8>, i: int) -> int
    decreases s.len() - i,
{
    if 0 <= i < s.len() && is_digit(s[i]) {
        digits_end(s, i + 1)
    } else {
        i
    }
}

/// A point or an exponent mark makes a number a fraction.
pub open spec fn starts_fraction(b: u8) -> bool {
    b == DOT || b == 0x65 || b == 0x45
}

/// Reads the integer at `i`: an optional minus sign and digits without a
/// leading zero. A number with a fraction or exponent, or one that does not
/// fit in 64 bits, is a number of another type.
pub open spec fn integer_at(s: Seq<u8>, i: int) -> Result<(i64, int), DecodeErrorKind> {
    let negative = 0 <= i < s.len() && s[i] == MINUS;
    let first = if negative {
        i + 1
    } else {
        i
    };
    if first < 0 || first >= s.len() {
        Err(DecodeErrorKind::Truncated)
    } else if !is_digit(s[first]) {
        Err(DecodeErrorKind::Malformed)
    } else if s[first] == DIGIT_ZERO && first + 1 < s.len() && is_digit(s[first + 1]) {
        Err(DecodeErrorKind::Malformed)
    } else {
        let end = digits_end(s, first);
        let magnitude = decimal_value(s.subrange(first, end)) as int;
        let value = if negative {
            -magnitude
        } else {
            magnitude
        };
        if end < s.len() && starts_fraction(s[end]) {
            Err(DecodeErrorKind::TypeMismatch)
        } else if value < i64::MIN || value > i64::MAX {
            Err(DecodeErrorKind::TypeMismatch)
        } else {
            Ok((value as i64, end))
        }
    }
}

/// A run of digits ends inside the text, holds digits only, and is
/// followed by none.
pub proof fn lemma_digits_end_bounds(s: Seq<u8>, i: int)
    requires
        0 <= i <= s.len(),
    ensures
        i <= digits_end(s, i) <= s.len(),
        forall|k: int| i <= k < digits_end(s, i) ==> is_digit(#[trigger] s[k]),
        digits_end(s, i) < s.len() ==> !is_digit(s[digits_end(s, i)]),
    decreases s.len() - i,
{
    if i < s.len() && is_digit(s[i]) {
        lemma_digits_end_bounds(s, i + 1);
    }
}

/// More digits do not make a number smaller.
proof fn lemma_decimal_value_grows(s: Seq<u8>, first: int, j: int, end: int)
    requires
        0 <= first <= j <= end <= s.len(),
    ensures
        decimal_value(s.subrange(first, j)) <= decimal_value(s.subrange(first, end)),
    decreases end - j,
{
    if j < end {
        lemma_decimal_value_grows(s, first, j, end - 1);
        assert(s.subrange(first, end).drop_last() =~= s.subrange(first, end - 1));
    }
}

/// The magnitude of the smallest 64-bit integer.
pub const MAGNITUDE_LIMIT: u64 = 9223372036854775808;

/// Reads the integer at `i`.
#[verifier::loop_isolation(false)]
pub fn read_integer(s: &[u8], i: usize) -> (r: Result<(i64, usize), DecodeErrorKind>)
    ensures
        match integer_at(s@, i as int) {
            Ok((value, end)) => r matches Ok((read, stop)) && read == value && stop == end && i
                < end <= s.len(),
            Err(kind) => r == Err::<(i64, usize), DecodeErrorKind>(kind),
        },
{
    let n: usize = s.len();
    if i >= n {
        return Err(DecodeErrorKind::Truncated);
    }
    let negative: bool = s[i] == MINUS;
    let first: usize = if negative {
        i + 1
    } else {
        i
    };
    if first >= n {
        return Err(DecodeErrorKind::Truncated);
    }
    if !(DIGIT_ZERO <= s[first] && s[first] <= DIGIT_NINE) {
        return Err(DecodeErrorKind::Malformed);
    }
    if s[first] == DIGIT_ZERO && first + 1 < n && DIGIT_ZERO <= s[first + 1] && s[first + 1]
        <= DIGIT_NINE {
        return Err(DecodeErrorKind::Malformed);
    }
    let mut j: usize = first;
    let mut magnitude: u64 = 0;
    proof {
        lemma_digits_end_bounds(s@, first as int);
        assert(s@.subrange(first as int, first as int) =~= Seq::<u8>::empty());
    }
    while j < n && DIGIT_ZERO <= s[j] && s[j] <= DIGIT_NINE
        invariant
            first <= j <= n,
            n == s.len(),
            j <= digits_end(s@, first as int) <= n,
            digits_end(s@, first as int) == digits_end(s@, j as int),
            magnitude == decimal_value(s@.subrange(first as int, j as int)),
            magnitude <= MAGNITUDE_LIMIT,
        decreases n - j,
    {
        let digit: u64 = (s[j] - DIGIT_ZERO) as u64;
        proof {
            assert(s@.subrange(first as int, j + 1).drop_last() =~= s@.subrange(
                first as int,
                j as int,
            ));
            lemma_digits_end_bounds(s@, j + 1);
        }
        assert(decimal_value(s@.subrange(first as int, j + 1)) == magnitude * 10 + digit);
        assert(digits_end(s@, j as int) == digits_end(s@, j + 1));
        if magnitude > (MAGNITUDE_LIMIT - digit) / 10 {
            proof {
                assert(magnitude * 10 + digit > MAGNITUDE_LIMIT);
                lemma_decimal_value_grows(
                    s@,
                    first as int,
                    j + 1,
                    digits_end(s@, first as int),
                );
            }
            return Err(DecodeErrorKind::TypeMismatch);
        }
        magnitude = magnitude * 10 + digit;
        j += 1;
    }
    if j < n && (s[j] == DOT || s[j] == 0x65 || s[j] == 0x45) {
        return Err(DecodeErrorKind::TypeMismatch);
    }
    if negative {
        if magnitude == MAGNITUDE_LIMIT {
            Ok((i64::MIN, j))
        } else {
            Ok((-(magnitude as i64), j))
        }
    } else if magnitude == MAGNITUDE_LIMIT {
        Err(DecodeErrorKind::TypeMismatch)
    } else {
        Ok((magnitude as i64, j))
    }
}

/// Appends the decimal digits of `n` to `out`.
fn push_digits(out: &mut Vec<u8>, n: u64)
    ensures
        final(out)@ == old(out)@ + digits_of(n as nat),
    decreases n,
{
    let ghost before = out@;
    if n >= 10 {
        push_digits(out, n / 10);
    }
    out.push(DIGIT_ZERO + (n % 10) as u8);
    assert(out@ =~= before + digits_of(n as nat));
}

/// Appends an integer in decimal to `out`.
pub fn write_integer(out: &mut Vec<u8>, v: i64)
    ensures
        final(out)@ == old(out)@ + integer_text(v as int),
{
    let ghost before = out@;
    if v < 0 {
        out.push(MINUS);
        let magnitude: u64 = if v == i64::MIN {
            MAGNITUDE_LIMIT
        } else {
            (-v) as u64
        };
        push_digits(out, magnitude);
        assert(out@ =~= before + integer_text(v as int));
    } else {
        push_digits(out, v as u64);
    }
}

/// What the digits of a number look like, and that they stand for it.
pub proof fn lemma_digits_of(n: nat)
    ensures
        digits_of(n).len() >= 1,
        forall|k: int| 0 <= k < digits_of(n).len() ==> is_digit(#[trigger] digits_of(n)[k]),
        digits_of(n)[0] == DIGIT_ZERO ==> digits_of(n).len() == 1,
        decimal_value(digits_of(n)) == n,
    decreases n,
{
    if n < 10 {
        let d = digits_of(n);
        assert(d.drop_last() =~= Seq::<u8>::empty());
        assert(decimal_value(d.drop_last()) == 0);
    } else {
        lemma_digits_of(n / 10);
        let d = digits_of(n);
        assert(d.drop_last() =~= digits_of(n / 10));
        assert(d[0] == digits_of(n / 10)[0]);
        if d[0] == DIGIT_ZERO {
            let q = digits_of(n / 10);
            assert(q.len() == 1);
            assert(q.last() == q[0]);
            assert(q.drop_last() =~= Seq::<u8>::empty());
            assert(decimal_value(q.drop_last()) == 0);
            assert(decimal_value(q) == 0);
            assert(false);
        }
    }
}

/// A run of `len` digits that no digit follows ends behind those digits.
proof fn lemma_digits_end_run(s: Seq<u8>, i: int, len: int)
    requires
        0 <= i,
        0 <= len,
        i + len <= s.len(),
        forall|k: int| i <= k < i + len ==> is_digit(#[trigger] s[k]),
        i + len < s.len() ==> !is_digit(s[i + len]),
    ensures
        digits_end(s, i) == i + len,
    decreases len,
{
    if len > 0 {
        lemma_digits_end_run(s, i + 1, len - 1);
    }
}

/// Reading undoes writing: where the decimal form of `v` stands at `i` and
/// nothing behind it continues the number, the scanner yields `v`.
pub proof fn lemma_integer_at_text(s: Seq<u8>, i: int, v: i64)
    requires
        occurs_at(s, i, integer_text(v as int)),
        i + integer_text(v as int).len() < s.len() ==> {
            let next = s[i + integer_text(v as int).len()];
            !is_digit(next) && !starts_fraction(next)
        },
    ensures
        integer_at(s, i) == Ok::<(i64, int), DecodeErrorKind>(
            (v, i + integer_text(v as int).len()),
        ),
{
    let text = integer_text(v as int);
    let magnitude: nat = if v < 0 {
        (-v) as nat
    } else {
        v as nat
    };
    let digits = digits_of(magnitude);
    lemma_digits_of(magnitude);
    let first = if v < 0 {
        i + 1
    } else {
        i
    };
    if v < 0 {
        crate::wire::lemma_occurs_at_concat(s, i, seq![MINUS], digits);
        assert(seq![MINUS][0] == MINUS);
        assert(s[i + 0] == MINUS);
    } else {
        assert(s[i + 0] == digits[0]);
        assert(is_digit(digits[0]));
    }
    assert(occurs_at(s, first, digits));
    assert forall|k: int| first <= k < first + digits.len() implies is_digit(#[trigger] s[k]) by {
        assert(s[first + (k - first)] == digits[k - first]);
    }
    lemma_digits_end_run(s, first, digits.len() as int);
    assert(s[first + 0] == digits[0]);
    if digits.len() > 1 {
        assert(s[first + 1] == digits[1]);
    }
    assert(s.subrange(first, first + digits.len()) =~= digits) by {
        assert forall|k: int| 0 <= k < digits.len() implies s.subrange(
            first,
            first + digits.len(),
        )[k] == digits[k] by {
            assert(s[first + k] == digits[k]);
        }
    }
}

} // verus!
