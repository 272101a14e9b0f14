//! Runs of characters: where a run of whitespace or of name characters ends.

use vstd::prelude::*;
use crate::chars::{is_name_char, is_whitespace, name_char, whitespace};

verus! {

/// The first position at or after `pos` that holds no whitespace; the length of
/// `s` where only whitespace follows.
pub open spec fn ws_end(s: Seq<char>, pos: int) -> int
    decreases s.len() - pos,
{
    if 0 <= pos < s.len() && is_whitespace(s[pos]) {
        ws_end(s, pos + 1)
    } else {
        pos
    }
}

/// The position at which the whitespace that ends just before `end` begins.
pub open spec fn ws_start(s: Seq<char>, end: int) -> int
    decreases end,
{
    if 0 < end <= s.len() && is_whitespace(s[end - 1]) {
        ws_start(s, end - 1)
    } else {
        end
    }
}

/// The first position at or after `pos` that holds no name character.
pub open spec fn name_end(s: Seq<char>, pos: int) -> int
    decreases s.len() - pos,
{
    if 0 <= pos < s.len() && is_name_char(s[pos]) {
        name_end(s, pos + 1)
    } else {
        pos
    }
}

/// `ws_end` is the end of the longest run of whitespace that begins at `pos`.
pub proof fn lemma_ws_end(s: Seq<char>, pos: int)
    requires
        0 <= pos <= s.len(),
    ensures
        pos <= ws_end(s, pos) <= s.len(),
        forall|i: int| pos <= i < ws_end(s, pos) ==> is_whitespace(#[trigger] s[i]),
        ws_end(s, pos) < s.len() ==> !is_whitespace(s[ws_end(s, pos)]),
    decreases s.len() - pos,
{
    if pos < s.len() && is_whitespace(s[pos]) {
        lemma_ws_end(s, pos + 1);
    }
}

/// A run of whitespace from `pos` to `end` that cannot be extended ends at `ws_end`.
pub proof fn lemma_ws_end_unique(s: Seq<char>, pos: int, end: int)
    requires
        0 <= pos <= end <= s.len(),
        forall|i: int| pos <= i < end ==> is_whitespace(#[trigger] s[i]),
        end < s.len() ==> !is_whitespace(s[end]),
    ensures
        ws_end(s, pos) == end,
    decreases end - pos,
{
    if pos < end {
        lemma_ws_end_unique(s, pos + 1, end);
    }
}

/// `ws_start` is the start of the longest run of whitespace that ends at `end`.
pub proof fn lemma_ws_start(s: Seq<char>, end: int)
    requires
        0 <= end <= s.len(),
    ensures
        0 <= ws_start(s, end) <= end,
        forall|i: int| ws_start(s, end) <= i < end ==> is_whitespace(#[trigger] s[i]),
        ws_start(s, end) > 0 ==> !is_whitespace(s[ws_start(s, end) - 1]),
    decreases end,
{
    if 0 < end && is_whitespace(s[end - 1]) {
        lemma_ws_start(s, end - 1);
    }
}

/// A run of whitespace from `start` to `end` that cannot be extended begins at `ws_start`.
pub proof fn lemma_ws_start_unique(s: Seq<char>, start: int, end: int)
    requires
        0 <= start <= end <= s.len(),
        forall|i: int| start <= i < end ==> is_whitespace(#[trigger] s[i]),
        start > 0 ==> !is_whitespace(s[start - 1]),
    ensures
        ws_start(s, end) == start,
    decreases end - start,
{
    if start < end {
        lemma_ws_start_unique(s, start, end - 1);
    }
}

/// `name_end` is the end of the longest run of name characters that begins at `pos`.
pub proof fn lemma_name_end(s: Seq<char>, pos: int)
    requires
        0 <= pos <= s.len(),
    ensures
        pos <= name_end(s, pos) <= s.len(),
        forall|i: int| pos <= i < name_end(s, pos) ==> is_name_char(#[trigger] s[i]),
        name_end(s, pos) < s.len() ==> !is_name_char(s[name_end(s, pos)]),
        pos < s.len() && is_name_char(s[pos]) ==> pos < name_end(s, pos),
    decreases s.len() - pos,
{
    if pos < s.len() && is_name_char(s[pos]) {
        lemma_name_end(s, pos + 1);
    }
}

/// A run of name characters from `pos` to `end` that cannot be extended ends at `name_end`.
pub proof fn lemma_name_end_unique(s: Seq<char>, pos: int, end: int)
    requires
        0 <= pos <= end <= s.len(),
        forall|i: int| pos <= i < end ==> is_name_char(#[trigger] s[i]),
        end < s.len() ==> !is_name_char(s[end]),
    ensures
        name_end(s, pos) == end,
    decreases end - pos,
{
    if pos < end {
        lemma_name_end_unique(s, pos + 1, end);
    }
}

/// Skips the whitespace that begins at `pos`.
pub fn skip_whitespace(input: &Vec<char>, pos: usize) -> (end: usize)
    requires
        pos <= input.len(),
    ensures
        end == ws_end(input@, pos as int),
        pos <= end <= input.len(),
{
    let mut i: usize = pos;
    while i < input.len() && whitespace(input[i])
        invariant
            pos <= i <= input.len(),
            ws_end(input@, pos as int) == ws_end(input@, i as int),
        decreases input.len() - i,
    {
        i += 1;
    }
    i
}

/// Backs over the whitespace that ends just before `end`.
pub fn back_over_whitespace(input: &Vec<char>, end: usize) -> (start: usize)
    requires
        end <= input.len(),
    ensures
        start == ws_start(input@, end as int),
        start <= end,
{
    let mut i: usize = end;
    while i > 0 && whitespace(input[i - 1])
        invariant
            i <= end <= input.len(),
            ws_start(input@, end as int) == ws_start(input@, i as int),
        decreases i,
    {
        i -= 1;
    }
    i
}

/// Skips the name characters that begin at `pos`.
pub fn skip_name(input: &Vec<char>, pos: usize) -> (end: usize)
    requires
        pos <= input.len(),
    ensures
        end == name_end(input@, pos as int),
        pos <= end <= input.len(),
{
    let mut i: usize = pos;
    while i < input.len() && name_char(input[i])
        invariant
            pos <= i <= input.len(),
            name_end(input@, pos as int) == name_end(input@, i as int),
        decreases input.len() - i,
    {
        i += 1;
    }
    i
}

/// The characters of `input` from `from` up to `to`, as a string.
pub fn string_of(input: &Vec<char>, from: usize, to: usize) -> (text: String)
    requires
        from <= to <= input.len(),
    ensures
        text@ == input@.subrange(from as int, to as int),
{
    let mut text = String::new();
    let mut i: usize = from;
    while i < to
        invariant
            from <= i <= to <= input.len(),
            text@ == input@.subrange(from as int, i as int),
        decreases to - i,
    {
        text.push(input[i]);
        i += 1;
        assert(input@.subrange(from as int, i as int) =~= input@.subrange(from as int, i - 1).push(
            input@[i - 1],
        ));
    }
    text
}

/// Taken on trust from the documentation of `std::string::String::push`, not
/// proved: after the call the string is what it was before with `c` appended.
pub assume_specification[ std::string::String::push ](s: &mut std::string::String, c: char)
    ensures
        final(s)@ == old(s)@.push(c),
;

} // verus!
