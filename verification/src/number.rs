//! The two kinds of number that a record holds: decimal literals of
//! floating-point coordinates, and the indices of a face.
//!
//! A coordinate is recognised here and handed on as written. Turning the
//! literal into a binary floating-point value is left to the caller, which has
//! `str::parse` for it: the literals that `is_float_literal` accepts are those
//! that `str::parse::<f32>` reads, and the indices that `index_value` reads
//! are those that `str::parse::<usize>` reads, but for its bound.

use vstd::prelude::*;
use crate::error::LoadError;
use crate::text::to_chars;

verus! {

/// Whether `c` is a decimal digit.
pub open spec fn is_digit(c: char) -> bool {
    '0' <= c <= '9'
}

/// The value of the decimal digit `c`.
pub open spec fn digit_value(c: char) -> nat {
    (c as u32 - 0x30) as nat
}

/// Whether `c` is a sign.
pub open spec fn is_sign(c: char) -> bool {
    c == '+' || c == '-'
}

/// Number of decimal digits at the start of `s`.
pub open spec fn digits_len(s: Seq<char>) -> nat
    decreases s.len(),
{
    if s.len() == 0 || !is_digit(s[0]) {
        0
    } else {
        1 + digits_len(s.skip(1))
    }
}

/// Whether `s` holds decimal digits only, and at least one.
pub open spec fn is_digits(s: Seq<char>) -> bool {
    s.len() > 0 && forall|i: int| 0 <= i < s.len() ==> is_digit(#[trigger] s[i])
}

/// `s` without its leading sign, if it has one.
pub open spec fn unsigned(s: Seq<char>) -> Seq<char> {
    if s.len() > 0 && is_sign(s[0]) {
        s.skip(1)
    } else {
        s
    }
}

/// Whether `c` is the lower-case letter `letter` or its upper-case form.
pub open spec fn is_letter(c: char, letter: char) -> bool {
    c == letter || c as u32 + 32 == letter as u32
}

/// Whether `s` spells the lower-case `word`, in any mix of cases.
pub open spec fn spells(s: Seq<char>, word: Seq<char>) -> bool {
    s.len() == word.len() && forall|i: int| 0 <= i < s.len() ==> is_letter(#[trigger] s[i], word[i])
}

/// Whether `s` names an infinity or a value that is no number.
pub open spec fn is_special(s: Seq<char>) -> bool {
    ||| spells(s, seq!['i', 'n', 'f'])
    ||| spells(s, seq!['n', 'a', 'n'])
    ||| spells(s, seq!['i', 'n', 'f', 'i', 'n', 'i', 't', 'y'])
}

/// Whether `s` is an exponent: `e` or `E`, an optional sign, digits.
pub open spec fn is_exponent(s: Seq<char>) -> bool {
    s.len() > 0 && (s[0] == 'e' || s[0] == 'E') && is_digits(unsigned(s.skip(1)))
}

/// Whether `s` is an unsigned decimal number: digits with at most one point
/// among, before or behind them, then an optional exponent. The point alone
/// is no number.
pub open spec fn is_decimal(s: Seq<char>) -> bool {
    let whole = digits_len(s) as int;
    let point = whole < s.len() && s[whole] == '.';
    let fraction = if point {
        digits_len(s.skip(whole + 1)) as int
    } else {
        0
    };
    let mantissa = if point {
        whole + 1 + fraction
    } else {
        whole
    };
    whole + fraction > 0 && (mantissa == s.len() || is_exponent(s.skip(mantissa)))
}

/// Whether `s` is the literal of a floating-point number: an optional sign,
/// then a decimal number, `inf`, `infinity` or `nan`.
pub open spec fn is_float_literal(s: Seq<char>) -> bool {
    is_special(unsigned(s)) || is_decimal(unsigned(s))
}

/// The number that the decimal digits `s` write.
pub open spec fn decimal(s: Seq<char>) -> nat
    decreases s.len(),
{
    if s.len() == 0 {
        0
    } else {
        decimal(s.drop_last()) * 10 + digit_value(s.last())
    }
}

/// The digits of an index literal: `s` without a leading `+`.
pub open spec fn index_digits(s: Seq<char>) -> Seq<char> {
    if s.len() > 0 && s[0] == '+' {
        s.skip(1)
    } else {
        s
    }
}

/// The index that `s` writes: digits, which a `+` may precede. `None` where
/// `s` is anything else. The value is not bounded.
pub open spec fn index_value(s: Seq<char>) -> Option<nat> {
    if is_digits(index_digits(s)) {
        Some(decimal(index_digits(s)))
    } else {
        None
    }
}

/// What reading the index `s` gives on this machine: the value where a
/// `usize` holds it; `IndexOutOfRange` where it does not, since no table is
/// that long; `MalformedRecord` where `s` is no index.
pub open spec fn index_outcome(s: Seq<char>) -> Result<usize, LoadError> {
    match index_value(s) {
        None => Err(LoadError::MalformedRecord),
        Some(v) => if v <= usize::MAX {
            Ok(v as usize)
        } else {
            Err(LoadError::IndexOutOfRange)
        },
    }
}

/// `n` is the number of leading digits when the first `n` characters are
/// digits and the character at `n`, if there is one, is not.
pub proof fn lemma_digits_len(s: Seq<char>, n: int)
    requires
        0 <= n <= s.len(),
        forall|j: int| 0 <= j < n ==> is_digit(s[j]),
        n == s.len() || !is_digit(s[n]),
    ensures
        digits_len(s) == n,
    decreases n,
{
    if n > 0 {
        let t = s.skip(1);
        assert forall|j: int| 0 <= j < n - 1 implies is_digit(t[j]) by {
            assert(t[j] == s[j + 1]);
        }
        lemma_digits_len(t, n - 1);
    }
}

/// Appending a digit multiplies the value by ten and adds the digit.
pub proof fn lemma_decimal_push(s: Seq<char>, c: char)
    ensures
        decimal(s.push(c)) == decimal(s) * 10 + digit_value(c),
{
    assert(s.push(c).drop_last() == s);
}

/// Tests whether a character is a decimal digit.
pub fn digit(c: char) -> (r: bool)
    ensures
        r == is_digit(c),
{
    '0' <= c && c <= '9'
}

/// Tests whether `c` is `letter` or its upper-case form.
fn letter(c: char, lower: char) -> (r: bool)
    ensures
        r == is_letter(c, lower),
{
    c == lower || c as u32 + 32 == lower as u32
}

/// Position just behind the digits that start at `from` in `from..to` of
/// `chars`.
pub fn digits_end(chars: &Vec<char>, from: usize, to: usize) -> (end: usize)
    requires
        from <= to <= chars.len(),
    ensures
        from <= end <= to,
        end - from == digits_len(chars@.subrange(from as int, to as int)),
        forall|j: int| from <= j < end ==> is_digit(chars@[j]),
        end == to || !is_digit(chars@[end as int]),
{
    let mut i: usize = from;
    while i < to && digit(chars[i])
        invariant
            from <= i <= to <= chars.len(),
            forall|j: int| from <= j < i ==> is_digit(chars@[j]),
        decreases to - i,
    {
        i += 1;
    }
    proof {
        lemma_digits_len(chars@.subrange(from as int, to as int), i - from);
    }
    i
}

/// Tests whether `from..to` of `chars` holds digits only, and at least one.
fn digits_at(chars: &Vec<char>, from: usize, to: usize) -> (r: bool)
    requires
        from <= to <= chars.len(),
    ensures
        r == is_digits(chars@.subrange(from as int, to as int)),
{
    let end = digits_end(chars, from, to);
    let ghost s = chars@.subrange(from as int, to as int);
    if from < to && end == to {
        assert forall|i: int| 0 <= i < s.len() implies is_digit(#[trigger] s[i]) by {
            assert(s[i] == chars@[from + i]);
        }
        true
    } else {
        if from < to {
            assert(s[end - from] == chars@[end as int]);
        }
        false
    }
}

/// Position behind the sign at `from`, or `from` where no sign stands there.
fn skip_sign(chars: &Vec<char>, from: usize, to: usize) -> (start: usize)
    requires
        from <= to <= chars.len(),
    ensures
        from <= start <= to,
        chars@.subrange(start as int, to as int) == unsigned(chars@.subrange(from as int, to as int)),
{
    let ghost s = chars@.subrange(from as int, to as int);
    if from < to && (chars[from] == '+' || chars[from] == '-') {
        assert(s[0] == chars@[from as int]);
        assert(s.skip(1) == chars@.subrange(from + 1, to as int));
        from + 1
    } else {
        if from < to {
            assert(s[0] == chars@[from as int]);
        }
        from
    }
}

/// Tests whether `from..to` of `chars` names an infinity or no number.
fn special_at(chars: &Vec<char>, from: usize, to: usize) -> (r: bool)
    requires
        from <= to <= chars.len(),
    ensures
        r == is_special(chars@.subrange(from as int, to as int)),
{
    let ghost s = chars@.subrange(from as int, to as int);
    let n = to - from;
    if n == 3 {
        assert(s[0] == chars@[from + 0] && s[1] == chars@[from + 1] && s[2] == chars@[from + 2]);
        let inf = letter(chars[from], 'i') && letter(chars[from + 1], 'n') && letter(
            chars[from + 2],
            'f',
        );
        let nan = letter(chars[from], 'n') && letter(chars[from + 1], 'a') && letter(
            chars[from + 2],
            'n',
        );
        assert(inf == spells(s, seq!['i', 'n', 'f'])) by {
            let w = seq!['i', 'n', 'f'];
            if inf {
                assert forall|i: int| 0 <= i < 3 implies is_letter(#[trigger] s[i], w[i]) by {}
            } else {
                assert(!is_letter(s[0], w[0]) || !is_letter(s[1], w[1]) || !is_letter(s[2], w[2]));
            }
        }
        assert(nan == spells(s, seq!['n', 'a', 'n'])) by {
            let w = seq!['n', 'a', 'n'];
            if nan {
                assert forall|i: int| 0 <= i < 3 implies is_letter(#[trigger] s[i], w[i]) by {}
            } else {
                assert(!is_letter(s[0], w[0]) || !is_letter(s[1], w[1]) || !is_letter(s[2], w[2]));
            }
        }
        inf || nan
    } else if n == 8 {
        assert(s[0] == chars@[from + 0] && s[1] == chars@[from + 1] && s[2] == chars@[from + 2]
            && s[3] == chars@[from + 3] && s[4] == chars@[from + 4] && s[5] == chars@[from + 5]
            && s[6] == chars@[from + 6] && s[7] == chars@[from + 7]);
        let infinity = letter(chars[from], 'i') && letter(chars[from + 1], 'n') && letter(
            chars[from + 2],
            'f',
        ) && letter(chars[from + 3], 'i') && letter(chars[from + 4], 'n') && letter(
            chars[from + 5],
            'i',
        ) && letter(chars[from + 6], 't') && letter(chars[from + 7], 'y');
        assert(infinity == spells(s, seq!['i', 'n', 'f', 'i', 'n', 'i', 't', 'y'])) by {
            let w = seq!['i', 'n', 'f', 'i', 'n', 'i', 't', 'y'];
            if infinity {
                assert forall|i: int| 0 <= i < 8 implies is_letter(#[trigger] s[i], w[i]) by {}
            } else {
                assert(!is_letter(s[0], w[0]) || !is_letter(s[1], w[1]) || !is_letter(s[2], w[2])
                    || !is_letter(s[3], w[3]) || !is_letter(s[4], w[4]) || !is_letter(s[5], w[5])
                    || !is_letter(s[6], w[6]) || !is_letter(s[7], w[7]));
            }
        }
        infinity
    } else {
        false
    }
}

/// Tests whether `from..to` of `chars` is an exponent.
fn exponent_at(chars: &Vec<char>, from: usize, to: usize) -> (r: bool)
    requires
        from <= to <= chars.len(),
    ensures
        r == is_exponent(chars@.subrange(from as int, to as int)),
{
    let ghost s = chars@.subrange(from as int, to as int);
    if from < to && (chars[from] == 'e' || chars[from] == 'E') {
        assert(s[0] == chars@[from as int]);
        assert(s.skip(1) == chars@.subrange(from + 1, to as int));
        let start = skip_sign(chars, from + 1, to);
        digits_at(chars, start, to)
    } else {
        if from < to {
            assert(s[0] == chars@[from as int]);
        }
        false
    }
}

/// Tests whether `from..to` of `chars` is an unsigned decimal number.
fn decimal_at(chars: &Vec<char>, from: usize, to: usize) -> (r: bool)
    requires
        from <= to <= chars.len(),
    ensures
        r == is_decimal(chars@.subrange(from as int, to as int)),
{
    let ghost s = chars@.subrange(from as int, to as int);
    let whole_end = digits_end(chars, from, to);
    let mantissa_end: usize;
    let count: usize;
    if whole_end < to && chars[whole_end] == '.' {
        assert(s[whole_end - from] == chars@[whole_end as int]);
        assert(s.skip(whole_end - from + 1) == chars@.subrange(whole_end + 1, to as int));
        mantissa_end = digits_end(chars, whole_end + 1, to);
        count = (whole_end - from) + (mantissa_end - (whole_end + 1));
    } else {
        if whole_end < to {
            assert(s[whole_end - from] == chars@[whole_end as int]);
        }
        mantissa_end = whole_end;
        count = whole_end - from;
    }
    assert(s.skip(mantissa_end - from) == chars@.subrange(mantissa_end as int, to as int));
    if count == 0 {
        false
    } else if mantissa_end == to {
        true
    } else {
        exponent_at(chars, mantissa_end, to)
    }
}

/// Tests whether `from..to` of `chars` is the literal of a floating-point
/// number.
pub fn float_at(chars: &Vec<char>, from: usize, to: usize) -> (r: bool)
    requires
        from <= to <= chars.len(),
    ensures
        r == is_float_literal(chars@.subrange(from as int, to as int)),
{
    let start = skip_sign(chars, from, to);
    special_at(chars, start, to) || decimal_at(chars, start, to)
}

/// Tests whether `token` is the literal of a floating-point number.
pub fn is_float(token: &str) -> (r: bool)
    ensures
        r == is_float_literal(token@),
{
    let chars = to_chars(token);
    assert(chars@.subrange(0, chars@.len() as int) == chars@);
    float_at(&chars, 0, chars.len())
}

/// Reads the index that stands in `from..to` of `chars`.
pub fn index_at(chars: &Vec<char>, from: usize, to: usize) -> (r: Result<usize, LoadError>)
    requires
        from <= to <= chars.len(),
    ensures
        r == index_outcome(chars@.subrange(from as int, to as int)),
{
    let ghost s = chars@.subrange(from as int, to as int);
    let start: usize;
    if from < to && chars[from] == '+' {
        assert(s[0] == chars@[from as int]);
        assert(s.skip(1) == chars@.subrange(from + 1, to as int));
        start = from + 1;
    } else {
        if from < to {
            assert(s[0] == chars@[from as int]);
        }
        start = from;
    }
    let ghost digits = chars@.subrange(start as int, to as int);
    assert(digits == index_digits(s));
    if !digits_at(chars, start, to) {
        return Err(LoadError::MalformedRecord);
    }
    let mut value: usize = 0;
    let mut beyond = false;
    let mut i: usize = start;
    assert(chars@.subrange(start as int, start as int) == Seq::<char>::empty());
    while i < to
        invariant
            start <= i <= to <= chars.len(),
            digits == chars@.subrange(start as int, to as int),
            is_digits(digits),
            !beyond ==> value == decimal(chars@.subrange(start as int, i as int)),
            beyond ==> decimal(chars@.subrange(start as int, i as int)) > usize::MAX,
        decreases to - i,
    {
        let c = chars[i];
        proof {
            assert(digits[i - start] == c);
            lemma_decimal_push(chars@.subrange(start as int, i as int), c);
            assert(chars@.subrange(start as int, i as int).push(c) == chars@.subrange(
                start as int,
                i + 1,
            ));
        }
        let d: usize = (c as u32 - 0x30) as usize;
        if !beyond {
            if value > (usize::MAX - d) / 10 {
                beyond = true;
            } else {
                value = value * 10 + d;
            }
        }
        i += 1;
    }
    if beyond {
        Err(LoadError::IndexOutOfRange)
    } else {
        Ok(value)
    }
}

/// Reads the index that `token` writes: digits, which a `+` may precede.
pub fn parse_index(token: &str) -> (r: Result<usize, LoadError>)
    ensures
        r == index_outcome(token@),
{
    let chars = to_chars(token);
    assert(chars@.subrange(0, chars@.len() as int) == chars@);
    index_at(&chars, 0, chars.len())
}

} // verus!
