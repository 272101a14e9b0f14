//! The leaf classifier: character data becomes a number where all of it, once
//! trimmed, reads as a signed 32-bit integer, and a string otherwise.

use vstd::prelude::*;
use crate::chars::{chars_of, digit, is_digit, is_whitespace};
use crate::scan::{
    back_over_whitespace, lemma_ws_end, lemma_ws_end_unique, lemma_ws_start,
    lemma_ws_start_unique, skip_whitespace, string_of, ws_end, ws_start,
};
use crate::value::{Node, XmlValue};

verus! {

/// `s` without the whitespace at its two ends.
pub open spec fn trimmed(s: Seq<char>) -> Seq<char> {
    let from = ws_end(s, 0);
    let to = ws_start(s, s.len() as int);
    if from < to {
        s.subrange(from, to)
    } else {
        Seq::empty()
    }
}

/// Whether `s` is one or more ASCII digits.
pub open spec fn is_digits(s: Seq<char>) -> bool {
    s.len() > 0 && forall|i: int| 0 <= i < s.len() ==> is_digit(#[trigger] s[i])
}

/// The number that the decimal digits `s` denote.
pub open spec fn digits_value(s: Seq<char>) -> int
    decreases s.len(),
{
    if s.len() == 0 {
        0
    } else {
        10 * digits_value(s.drop_last()) + (s.last() as int - '0' as int)
    }
}

/// The integer that `s` denotes: digits, or `-` and digits. Nothing else denotes one.
pub open spec fn integer_value(s: Seq<char>) -> Option<int> {
    if s.len() > 0 && s[0] == '-' {
        if is_digits(s.skip(1)) {
            Some(-digits_value(s.skip(1)))
        } else {
            None
        }
    } else if is_digits(s) {
        Some(digits_value(s))
    } else {
        None
    }
}

/// The signed 32-bit integer that `s` denotes, if it denotes one in that range.
pub open spec fn i32_value(s: Seq<char>) -> Option<i32> {
    match integer_value(s) {
        Some(n) => if i32::MIN <= n <= i32::MAX {
            Some(n as i32)
        } else {
            None
        },
        None => None,
    }
}

/// The leaf that the character data `raw` stands for.
pub open spec fn classify(raw: Seq<char>) -> Node {
    let text = trimmed(raw);
    match i32_value(text) {
        Some(n) => Node::Number(n as int),
        None => Node::Text(text),
    }
}

/// Trimmed text neither begins nor ends with whitespace.
pub proof fn lemma_trimmed_edges(s: Seq<char>)
    ensures
        trimmed(s).len() > 0 ==> !is_whitespace(trimmed(s).first()) && !is_whitespace(
            trimmed(s).last(),
        ),
{
    lemma_ws_end(s, 0);
    lemma_ws_start(s, s.len() as int);
}

/// Text that neither begins nor ends with whitespace is its own trimmed form.
pub proof fn lemma_trimmed_fixed(s: Seq<char>)
    requires
        s.len() > 0 ==> !is_whitespace(s.first()) && !is_whitespace(s.last()),
    ensures
        trimmed(s) == s,
{
    if s.len() > 0 {
        lemma_ws_end_unique(s, 0, 0);
        lemma_ws_start_unique(s, s.len() as int, s.len() as int);
    }
}

/// Trimming twice is trimming once.
pub proof fn lemma_trimmed_idempotent(s: Seq<char>)
    ensures
        trimmed(trimmed(s)) == trimmed(s),
{
    lemma_trimmed_edges(s);
    lemma_trimmed_fixed(trimmed(s));
}

/// Classifying the text of a string leaf again gives the same leaf.
pub proof fn lemma_classify_stable(raw: Seq<char>)
    ensures
        classify(raw) matches Node::Text(text) ==> classify(text) == Node::Text(text),
{
    lemma_trimmed_idempotent(raw);
}

/// Digits appended to digits do not make the number smaller.
pub proof fn lemma_digits_value_monotone(s: Seq<char>, n: int)
    requires
        is_digits(s),
        0 <= n <= s.len(),
    ensures
        0 <= digits_value(s.take(n)) <= digits_value(s),
    decreases s.len() - n,
{
    if n == 0 {
        lemma_digits_value_nonnegative(s);
    } else if n == s.len() {
        assert(s.take(n) =~= s);
        lemma_digits_value_nonnegative(s);
    } else {
        lemma_digits_value_monotone(s, n + 1);
        assert(s.take(n + 1).drop_last() =~= s.take(n));
        lemma_digits_value_nonnegative_prefix(s, n);
    }
}

/// The number that digits denote is not negative.
pub proof fn lemma_digits_value_nonnegative(s: Seq<char>)
    requires
        s.len() > 0 ==> is_digits(s),
    ensures
        0 <= digits_value(s),
    decreases s.len(),
{
    if s.len() > 0 {
        lemma_digits_value_nonnegative(s.drop_last());
    }
}

/// The number that a prefix of digits denotes is not negative.
pub proof fn lemma_digits_value_nonnegative_prefix(s: Seq<char>, n: int)
    requires
        is_digits(s),
        0 <= n <= s.len(),
    ensures
        0 <= digits_value(s.take(n)),
{
    lemma_digits_value_nonnegative(s.take(n));
}

/// Reads the characters of `input` from `from` up to `to` as a signed 32-bit integer.
pub fn read_i32(input: &Vec<char>, from: usize, to: usize) -> (number: Option<i32>)
    requires
        from <= to <= input.len(),
    ensures
        number == i32_value(input@.subrange(from as int, to as int)),
{
    let ghost text = input@.subrange(from as int, to as int);
    if from == to {
        return None;
    }
    let negative = input[from] == '-';
    let first: usize = if negative {
        from + 1
    } else {
        from
    };
    let ghost body = input@.subrange(first as int, to as int);
    if first == to {
        return None;
    }
    let mut value: i64 = 0;
    let mut i: usize = first;
    while i < to
        invariant
            first <= i <= to <= input.len(),
            text == input@.subrange(from as int, to as int),
            body == input@.subrange(first as int, to as int),
            text.len() > 0,
            negative == (text[0] == '-'),
            negative ==> text.skip(1) == body,
            !negative ==> text == body,
            forall|k: int| 0 <= k < i - first ==> is_digit(#[trigger] body[k]),
            value == digits_value(body.take(i - first)),
            0 <= value <= 0x8000_0000,
        decreases to - i,
    {
        let c = input[i];
        assert(body[i - first] == c);
        if !digit(c) {
            return None;
        }
        let d: i64 = (c as u32 - '0' as u32) as i64;
        value = value * 10 + d;
        i += 1;
        proof {
            assert(body.take(i - first).drop_last() =~= body.take(i - first - 1));
        }
        if value > 0x8000_0000 {
            proof {
                if is_digits(body) {
                    lemma_digits_value_monotone(body, i - first);
                }
            }
            return None;
        }
    }
    proof {
        assert(body.take(to - first) =~= body);
    }
    if negative {
        Some((-value) as i32)
    } else if value > 0x7fff_ffff {
        None
    } else {
        Some(value as i32)
    }
}

/// Classifies the character data `raw` as a number or a string.
pub fn classify_leaf(raw: &str) -> (leaf: XmlValue)
    ensures
        leaf@ == classify(raw@),
{
    let input = chars_of(raw);
    let from = skip_whitespace(&input, 0);
    let to = back_over_whitespace(&input, input.len());
    if from >= to {
        return XmlValue::String(String::new());
    }
    match read_i32(&input, from, to) {
        Some(n) => XmlValue::Number(n),
        None => XmlValue::String(string_of(&input, from, to)),
    }
}

} // verus!
