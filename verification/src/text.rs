//! Text as sequences of characters: comparison, integer literals and decimal
//! notation.

use vstd::prelude::*;

verus! {

/// The characters of a string slice, in order.
pub fn chars_of(s: &str) -> (text: Vec<char>)
    ensures
        text@ == s@,
{
    let mut text: Vec<char> = Vec::new();
    for c in it: s.chars()
        invariant
            it.seq() == s@,
            text@.len() == it.index(),
            forall|j: int| 0 <= j < text@.len() ==> text@[j] == it.seq()[j],
    {
        text.push(c);
    }
    text
}

/// Whether a text is exactly the given characters.
pub fn text_is(text: &[char], word: &[char]) -> (same: bool)
    ensures
        same == (text@ == word@),
{
    if text.len() != word.len() {
        return false;
    }
    let mut i: usize = 0;
    while i < text.len()
        invariant
            text@.len() == word@.len(),
            i <= text@.len(),
            forall|j: int| 0 <= j < i ==> text@[j] == word@[j],
        decreases text@.len() - i,
    {
        if text[i] != word[i] {
            return false;
        }
        i += 1;
    }
    assert(text@ =~= word@);
    true
}

/// Appends the characters of `text` to `out`.
pub fn append_text(out: &mut Vec<char>, text: &[char])
    ensures
        final(out)@ == old(out)@ + text@,
{
    let mut i: usize = 0;
    while i < text.len()
        invariant
            i <= text@.len(),
            out@ == old(out)@ + text@.take(i as int),
        decreases text@.len() - i,
    {
        out.push(text[i]);
        i += 1;
    }
}

/// Whether a character is one of the ten decimal digits.
pub open spec fn is_digit(c: char) -> bool {
    '0' <= c && c <= '9'
}

/// The value of a decimal digit; zero for any other character.
pub open spec fn digit_of(c: char) -> nat {
    if is_digit(c) {
        (c as u32 - '0' as u32) as nat
    } else {
        0
    }
}

/// Whether every character of a text is a decimal digit.
pub open spec fn all_digits(s: Seq<char>) -> bool {
    forall|i: int| 0 <= i < s.len() ==> is_digit(#[trigger] s[i])
}

/// The number that a text of decimal digits denotes, most significant digit
/// first; the empty text denotes zero.
pub open spec fn digits_value(s: Seq<char>) -> nat
    decreases s.len(),
{
    if s.len() == 0 {
        0
    } else {
        digits_value(s.drop_last()) * 10 + digit_of(s.last())
    }
}

/// The number denoted by a text that is a non-empty run of decimal digits
/// and does not exceed `limit`; `None` for every other text.
pub open spec fn natural_value(s: Seq<char>, limit: nat) -> Option<nat> {
    if s.len() > 0 && all_digits(s) && digits_value(s) <= limit {
        Some(digits_value(s))
    } else {
        None
    }
}

/// The number denoted by an unsigned literal: an optional `+` followed by a
/// non-empty run of decimal digits whose value does not exceed `limit`.
pub open spec fn unsigned_value(s: Seq<char>, limit: nat) -> Option<nat> {
    if s.len() > 0 && s[0] == '+' {
        natural_value(s.skip(1), limit)
    } else {
        natural_value(s, limit)
    }
}

/// The number denoted by a 16-bit signed integer literal: an optional `+`
/// or `-` followed by a non-empty run of decimal digits, with a value from
/// -32768 to 32767. Every other text denotes no number.
pub open spec fn literal_value(s: Seq<char>) -> Option<i16> {
    if s.len() > 0 && s[0] == '-' {
        match natural_value(s.skip(1), 32768) {
            Some(n) => Some((0 - n) as i16),
            None => None,
        }
    } else {
        match unsigned_value(s, 32767) {
            Some(n) => Some(n as i16),
            None => None,
        }
    }
}

/// A run of digits denotes at least as much as any of its prefixes.
pub proof fn lemma_digits_value_prefix(s: Seq<char>, k: int)
    requires
        0 <= k <= s.len(),
    ensures
        digits_value(s.take(k)) <= digits_value(s),
    decreases s.len(),
{
    if k == s.len() {
        assert(s.take(k) =~= s);
    } else {
        lemma_digits_value_prefix(s.drop_last(), k);
        assert(s.drop_last().take(k) =~= s.take(k));
    }
}

/// Reads the characters of `text` from `start` up to `end` as a run of
/// decimal digits with a value of at most `limit`.
pub fn parse_natural(text: &[char], start: usize, end: usize, limit: u64) -> (value: Option<u64>)
    requires
        start <= end <= text@.len(),
    ensures
        match value {
            Some(n) => natural_value(text@.subrange(start as int, end as int), limit as nat) == Some(n as nat),
            None => natural_value(text@.subrange(start as int, end as int), limit as nat).is_none(),
        },
{
    let ghost run = text@.subrange(start as int, end as int);
    if start == end {
        return None;
    }
    let mut acc: u64 = 0;
    let mut i: usize = start;
    while i < end
        invariant
            start <= i <= end <= text@.len(),
            run == text@.subrange(start as int, end as int),
            all_digits(run.take(i - start)),
            acc == digits_value(run.take(i - start)),
            acc <= limit,
        decreases end - i,
    {
        let c: char = text[i];
        let ghost before = run.take(i - start);
        let ghost after = run.take(i - start + 1);
        proof {
            assert(after.drop_last() =~= before);
            lemma_digits_value_prefix(run, i - start + 1);
        }
        if c < '0' || c > '9' {
            return None;
        }
        let d: u64 = (c as u32 - '0' as u32) as u64;
        if acc > limit / 10 {
            return None;
        }
        let tens: u64 = acc * 10;
        if d > limit - tens {
            return None;
        }
        acc = tens + d;
        i += 1;
        proof {
            assert forall|j: int| 0 <= j < after.len() implies is_digit(#[trigger] after[j]) by {
            }
        }
    }
    assert(run.take(i - start) =~= run);
    Some(acc)
}

/// Reads the characters of `text` from `start` up to `end` as an unsigned
/// literal with a value of at most `limit`.
pub fn parse_unsigned(text: &[char], start: usize, end: usize, limit: u64) -> (value: Option<u64>)
    requires
        start <= end <= text@.len(),
    ensures
        match value {
            Some(n) => unsigned_value(text@.subrange(start as int, end as int), limit as nat) == Some(n as nat),
            None => unsigned_value(text@.subrange(start as int, end as int), limit as nat).is_none(),
        },
{
    if start < end && text[start] == '+' {
        assert(text@.subrange(start as int, end as int).skip(1) =~= text@.subrange(start + 1, end as int));
        parse_natural(text, start + 1, end, limit)
    } else {
        parse_natural(text, start, end, limit)
    }
}

/// Reads a text as a 16-bit signed integer literal.
pub fn parse_i16(text: &[char]) -> (value: Option<i16>)
    ensures
        value == literal_value(text@),
{
    let n: usize = text.len();
    if n > 0 && text[0] == '-' {
        match parse_natural(text, 1, n, 32768) {
            Some(v) => {
                if v == 32768 {
                    Some(i16::MIN)
                } else {
                    Some(0 - (v as i16))
                }
            },
            None => None,
        }
    } else if n > 0 && text[0] == '+' {
        match parse_natural(text, 1, n, 32767) {
            Some(v) => Some(v as i16),
            None => None,
        }
    } else {
        assert(text@ =~= text@.subrange(0, n as int));
        match parse_natural(text, 0, n, 32767) {
            Some(v) => Some(v as i16),
            None => None,
        }
    }
}

/// The character that stands for a digit value below ten.
pub open spec fn digit_char(d: nat) -> char {
    ((d % 10) as u8 + 48u8) as char
}

/// The decimal digits of a natural number, without leading zeros.
pub open spec fn natural_digits(n: nat) -> Seq<char>
    decreases n,
{
    if n < 10 {
        seq![digit_char(n)]
    } else {
        natural_digits(n / 10).push(digit_char(n % 10))
    }
}

/// The decimal notation of an integer, with a leading `-` when negative.
pub open spec fn decimal_text(v: int) -> Seq<char> {
    if v < 0 {
        seq!['-'] + natural_digits((0 - v) as nat)
    } else {
        natural_digits(v as nat)
    }
}

/// Appends the decimal digits of `n` to `out`.
pub fn push_natural(out: &mut Vec<char>, n: u32)
    ensures
        final(out)@ == old(out)@ + natural_digits(n as nat),
    decreases n,
{
    if n >= 10 {
        push_natural(out, n / 10);
    }
    let d: u8 = (n % 10) as u8;
    out.push((d + 48u8) as char);
}

/// Appends the decimal notation of `v` to `out`.
pub fn push_decimal(out: &mut Vec<char>, v: i16)
    ensures
        final(out)@ == old(out)@ + decimal_text(v as int),
{
    if v < 0 {
        out.push('-');
        let magnitude: u32 = (0 - (v as i32)) as u32;
        push_natural(out, magnitude);
    } else {
        push_natural(out, v as u32);
    }
}

} // verus!
