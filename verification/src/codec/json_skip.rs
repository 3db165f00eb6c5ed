//! Stepping over a value of the text format without keeping it, as is done
//! for members that the shape does not know.

use crate::codec::json_scalar::{
    after_spaces, digits_end, false_text, is_digit, lemma_digits_end_bounds, null_text, read_word,
    skip_spaces, true_text, word_at,
};
use crate::codec::json_text::{read_string, string_at};
use crate::codec::DecodeErrorKind;
use crate::wire::{
    COLON, COMMA, DIGIT_NINE, DIGIT_ZERO, DOT, LBRACE, LBRACKET, MINUS, PLUS, QUOTE, RBRACE,
    RBRACKET,
};
use vstd::prelude::*;

verus! {

/// How deep arrays and objects may nest inside a member that is stepped over.
pub const MAX_DEPTH: usize = 64;

/// The offset behind an optional exponent at `i`.
pub open spec fn exponent_end(s: Seq<u8>, i: int) -> Result<int, DecodeErrorKind> {
    if 0 <= i < s.len() && (s[i] == 0x65 || s[i] == 0x45) {
        let first = if i + 1 < s.len() && (s[i + 1] == PLUS || s[i + 1] == MINUS) {
            i + 2
        } else {
            i + 1
        };
        if first >= s.len() {
            Err(DecodeErrorKind::Truncated)
        } else if !is_digit(s[first]) {
            Err(DecodeErrorKind::Malformed)
        } else {
            Ok(digits_end(s, first))
        }
    } else {
        Ok(i)
    }
}

/// The offset behind an optional fraction and exponent at `i`.
pub open spec fn fraction_end(s: Seq<u8>, i: int) -> Result<int, DecodeErrorKind> {
    if 0 <= i < s.len() && s[i] == DOT {
        if i + 1 >= s.len() {
            Err(DecodeErrorKind::Truncated)
        } else if !is_digit(s[i + 1]) {
            Err(DecodeErrorKind::Malformed)
        } else {
            exponent_end(s, digits_end(s, i + 1))
        }
    } else {
        exponent_end(s, i)
    }
}

/// The offset behind the number at `i`: an optional minus sign, digits
/// without a leading zero, an optional fraction and an optional exponent.
pub open spec fn number_end(s: Seq<u8>, i: int) -> Result<int, DecodeErrorKind> {
    let first = if 0 <= i < s.len() && s[i] == MINUS {
        i + 1
    } else {
        i
    };
    if first < 0 || first >= s.len() {
        Err(DecodeErrorKind::Truncated)
    } else if !is_digit(s[first]) {
        Err(DecodeErrorKind::Malformed)
    } else if s[first] == DIGIT_ZERO && first + 1 < s.len() && is_digit(s[first + 1]) {
        Err(DecodeErrorKind::Malformed)
    } else {
        fraction_end(s, digits_end(s, first))
    }
}

/// The offset behind the value that starts at `i`. Arrays and objects may
/// nest `depth` levels deep. Each value takes at least one byte; the
/// comparisons of offsets in the two functions below say so for the sake of
/// termination and never fail.
pub open spec fn value_end(s: Seq<u8>, i: int, depth: nat) -> Result<int, DecodeErrorKind>
    decreases depth, s.len() - i, 0nat,
{
    if i < 0 || i >= s.len() {
        Err(DecodeErrorKind::Truncated)
    } else if s[i] == QUOTE {
        match string_at(s, i) {
            Ok((_, end)) => Ok(end),
            Err(kind) => Err(kind),
        }
    } else if s[i] == LBRACE {
        let first = after_spaces(s, i + 1);
        if depth == 0 {
            Err(DecodeErrorKind::Malformed)
        } else if 0 <= first < s.len() && s[first] == RBRACE {
            Ok(first + 1)
        } else {
            members_end(s, first, (depth - 1) as nat)
        }
    } else if s[i] == LBRACKET {
        let first = after_spaces(s, i + 1);
        if depth == 0 {
            Err(DecodeErrorKind::Malformed)
        } else if 0 <= first < s.len() && s[first] == RBRACKET {
            Ok(first + 1)
        } else {
            elements_end(s, first, (depth - 1) as nat)
        }
    } else if s[i] == 0x74 {
        word_at(s, i, true_text())
    } else if s[i] == 0x66 {
        word_at(s, i, false_text())
    } else if s[i] == 0x6e {
        word_at(s, i, null_text())
    } else if s[i] == MINUS || is_digit(s[i]) {
        number_end(s, i)
    } else {
        Err(DecodeErrorKind::Malformed)
    }
}

/// The offset behind the closing bracket of an array whose next element
/// starts at `i`.
pub open spec fn elements_end(s: Seq<u8>, i: int, depth: nat) -> Result<int, DecodeErrorKind>
    decreases depth, s.len() - i, 1nat,
{
    match value_end(s, i, depth) {
        Ok(end) => {
            let mark = after_spaces(s, end);
            let next = after_spaces(s, mark + 1);
            if mark < 0 || mark >= s.len() {
                Err(DecodeErrorKind::Truncated)
            } else if s[mark] == RBRACKET {
                Ok(mark + 1)
            } else if s[mark] == COMMA && i < next <= s.len() {
                elements_end(s, next, depth)
            } else {
                Err(DecodeErrorKind::Malformed)
            }
        },
        Err(kind) => Err(kind),
    }
}

/// The offset behind the closing brace of an object whose next member
/// starts at `i`.
pub open spec fn members_end(s: Seq<u8>, i: int, depth: nat) -> Result<int, DecodeErrorKind>
    decreases depth, s.len() - i, 1nat,
{
    match string_at(s, i) {
        Ok((_, key_end)) => {
            let colon = after_spaces(s, key_end);
            let start = after_spaces(s, colon + 1);
            if colon < 0 || colon >= s.len() {
                Err(DecodeErrorKind::Truncated)
            } else if s[colon] != COLON || !(i < start <= s.len()) {
                Err(DecodeErrorKind::Malformed)
            } else {
                match value_end(s, start, depth) {
                    Ok(end) => {
                        let mark = after_spaces(s, end);
                        let next = after_spaces(s, mark + 1);
                        if mark < 0 || mark >= s.len() {
                            Err(DecodeErrorKind::Truncated)
                        } else if s[mark] == RBRACE {
                            Ok(mark + 1)
                        } else if s[mark] == COMMA && i < next <= s.len() {
                            members_end(s, next, depth)
                        } else {
                            Err(DecodeErrorKind::Malformed)
                        }
                    },
                    Err(kind) => Err(kind),
                }
            }
        },
        Err(kind) => Err(kind),
    }
}

/// Steps over a run of digits.
fn skip_digits(s: &[u8], i: usize) -> (end: usize)
    requires
        i <= s.len(),
    ensures
        end == digits_end(s@, i as int),
        i <= end <= s.len(),
{
    let mut j: usize = i;
    while j < s.len() && DIGIT_ZERO <= s[j] && s[j] <= DIGIT_NINE
        invariant
            i <= j <= s.len(),
            digits_end(s@, i as int) == digits_end(s@, j as int),
        decreases s.len() - j,
    {
        j += 1;
    }
    j
}

/// Steps over an optional exponent at `i`.
fn skip_exponent(s: &[u8], i: usize) -> (r: Result<usize, DecodeErrorKind>)
    requires
        i <= s.len(),
    ensures
        match exponent_end(s@, i as int) {
            Ok(end) => r matches Ok(stop) && stop == end && i <= end <= s.len(),
            Err(kind) => r matches Err(k) && k == kind,
        },
{
    let n: usize = s.len();
    if i < n && (s[i] == 0x65 || s[i] == 0x45) {
        let first: usize = if i + 1 < n && (s[i + 1] == PLUS || s[i + 1] == MINUS) {
            i + 2
        } else {
            i + 1
        };
        if first >= n {
            Err(DecodeErrorKind::Truncated)
        } else if !(DIGIT_ZERO <= s[first] && s[first] <= DIGIT_NINE) {
            Err(DecodeErrorKind::Malformed)
        } else {
            Ok(skip_digits(s, first))
        }
    } else {
        Ok(i)
    }
}

/// Steps over the number at `i`.
pub fn skip_number(s: &[u8], i: usize) -> (r: Result<usize, DecodeErrorKind>)
    ensures
        match number_end(s@, i as int) {
            Ok(end) => r matches Ok(stop) && stop == end && i < end <= s.len(),
            Err(kind) => r matches Err(k) && k == kind,
        },
{
    let n: usize = s.len();
    if i >= n {
        return Err(DecodeErrorKind::Truncated);
    }
    let first: usize = if s[i] == MINUS {
        i + 1
    } else {
        i
    };
    if first >= n {
        return Err(DecodeErrorKind::Truncated);
    }
    if !(DIGIT_ZERO <= s[first] && s[first] <= DIGIT_NINE) {
        return Err(DecodeErrorKind::Malformed);
    }
    if s[first] == DIGIT_ZERO && first + 1 < n && DIGIT_ZERO <= s[first + 1] && s[first + 1]
        <= DIGIT_NINE {
        return Err(DecodeErrorKind::Malformed);
    }
    let whole: usize = skip_digits(s, first);
    proof {
        lemma_digits_end_bounds(s@, first + 1);
    }
    if whole < n && s[whole] == DOT {
        if whole + 1 >= n {
            Err(DecodeErrorKind::Truncated)
        } else if !(DIGIT_ZERO <= s[whole + 1] && s[whole + 1] <= DIGIT_NINE) {
            Err(DecodeErrorKind::Malformed)
        } else {
            let fraction: usize = skip_digits(s, whole + 1);
            skip_exponent(s, fraction)
        }
    } else {
        skip_exponent(s, whole)
    }
}

/// Steps over the value that starts at `i`.
pub fn skip_value(s: &[u8], i: usize, depth: usize) -> (r: Result<usize, DecodeErrorKind>)
    ensures
        match value_end(s@, i as int, depth as nat) {
            Ok(end) => r matches Ok(stop) && stop == end && i < end <= s.len(),
            Err(kind) => r matches Err(k) && k == kind,
        },
    decreases depth, 0nat,
{
    let n: usize = s.len();
    if i >= n {
        return Err(DecodeErrorKind::Truncated);
    }
    let c: u8 = s[i];
    if c == QUOTE {
        match read_string(s, i) {
            Ok((_, end)) => Ok(end),
            Err(kind) => Err(kind),
        }
    } else if c == LBRACE {
        let first: usize = skip_spaces(s, i + 1);
        if depth == 0 {
            Err(DecodeErrorKind::Malformed)
        } else if first < n && s[first] == RBRACE {
            Ok(first + 1)
        } else {
            skip_members(s, first, depth - 1)
        }
    } else if c == LBRACKET {
        let first: usize = skip_spaces(s, i + 1);
        if depth == 0 {
            Err(DecodeErrorKind::Malformed)
        } else if first < n && s[first] == RBRACKET {
            Ok(first + 1)
        } else {
            skip_elements(s, first, depth - 1)
        }
    } else if c == 0x74 {
        let word: Vec<u8> = vec![0x74, 0x72, 0x75, 0x65];
        assert(word@ =~= true_text());
        read_word(s, i, word.as_slice())
    } else if c == 0x66 {
        let word: Vec<u8> = vec![0x66, 0x61, 0x6c, 0x73, 0x65];
        assert(word@ =~= false_text());
        read_word(s, i, word.as_slice())
    } else if c == 0x6e {
        let word: Vec<u8> = vec![0x6e, 0x75, 0x6c, 0x6c];
        assert(word@ =~= null_text());
        read_word(s, i, word.as_slice())
    } else if c == MINUS || (DIGIT_ZERO <= c && c <= DIGIT_NINE) {
        skip_number(s, i)
    } else {
        Err(DecodeErrorKind::Malformed)
    }
}

/// Steps over the rest of an array whose next element starts at `start`.
fn skip_elements(s: &[u8], start: usize, depth: usize) -> (r: Result<usize, DecodeErrorKind>)
    requires
        start <= s.len(),
    ensures
        match elements_end(s@, start as int, depth as nat) {
            Ok(end) => r matches Ok(stop) && stop == end && start < end <= s.len(),
            Err(kind) => r matches Err(k) && k == kind,
        },
    decreases depth, 1nat,
{
    let n: usize = s.len();
    let mut i: usize = start;
    loop
        invariant
            start <= i <= n,
            n == s.len(),
            elements_end(s@, start as int, depth as nat) == elements_end(
                s@,
                i as int,
                depth as nat,
            ),
        decreases n - i,
    {
        let end: usize = match skip_value(s, i, depth) {
            Ok(end) => end,
            Err(kind) => { return Err(kind); },
        };
        let mark: usize = skip_spaces(s, end);
        if mark >= n {
            return Err(DecodeErrorKind::Truncated);
        }
        if s[mark] == RBRACKET {
            return Ok(mark + 1);
        }
        if s[mark] != COMMA {
            return Err(DecodeErrorKind::Malformed);
        }
        i = skip_spaces(s, mark + 1);
    }
}

/// Steps over the rest of an object whose next member starts at `start`.
fn skip_members(s: &[u8], start: usize, depth: usize) -> (r: Result<usize, DecodeErrorKind>)
    requires
        start <= s.len(),
    ensures
        match members_end(s@, start as int, depth as nat) {
            Ok(end) => r matches Ok(stop) && stop == end && start < end <= s.len(),
            Err(kind) => r matches Err(k) && k == kind,
        },
    decreases depth, 1nat,
{
    let n: usize = s.len();
    let mut i: usize = start;
    loop
        invariant
            start <= i <= n,
            n == s.len(),
            members_end(s@, start as int, depth as nat) == members_end(
                s@,
                i as int,
                depth as nat,
            ),
        decreases n - i,
    {
        let key_end: usize = match read_string(s, i) {
            Ok((_, end)) => end,
            Err(kind) => { return Err(kind); },
        };
        let colon: usize = skip_spaces(s, key_end);
        if colon >= n {
            return Err(DecodeErrorKind::Truncated);
        }
        if s[colon] != COLON {
            return Err(DecodeErrorKind::Malformed);
        }
        let value_start: usize = skip_spaces(s, colon + 1);
        let end: usize = match skip_value(s, value_start, depth) {
            Ok(end) => end,
            Err(kind) => { return Err(kind); },
        };
        let mark: usize = skip_spaces(s, end);
        if mark >= n {
            return Err(DecodeErrorKind::Truncated);
        }
        if s[mark] == RBRACE {
            return Ok(mark + 1);
        }
        if s[mark] != COMMA {
            return Err(DecodeErrorKind::Malformed);
        }
        i = skip_spaces(s, mark + 1);
    }
}

} // verus!
