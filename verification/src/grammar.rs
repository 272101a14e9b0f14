//! The grammar of the XML subset, as functions from the input and a position to
//! the span that is matched there and the position after it.
//!
//! ```text
//! document   = ws (element ws)* end-of-input
//! element    = start-tag (ws (element | text))* ws end-tag     with the same name in both tags
//! start-tag  = "<" name (ws attribute)* ws ">"
//! end-tag    = "</" name ws ">"
//! attribute  = key ws "=" ws '"' value '"'
//! name, key  = letter (letter | digit | "_" | "-" | ".")*
//! value      = (entity | any character but '"' and "&")*
//! text       = (entity | any character but "<" and "&")+      beginning with no whitespace
//! entity     = "&amp;" | "&lt;" | "&gt;" | "&quot;" | "&apos;"
//! ```
//!
//! Every choice is decided by the next character, and every repetition takes as
//! much as it can, so an input has at most one parse.

use vstd::prelude::*;
use crate::chars::{is_name_char, is_name_start};
use crate::error::{SyntaxFault, XmlParseError};
use crate::scan::{name_end, ws_end};
use crate::span::{group, token, Rule, SpanModel};

verus! {

/// Whether `s` holds the character `c` at `pos`.
pub open spec fn at(s: Seq<char>, pos: int, c: char) -> bool {
    0 <= pos < s.len() && s[pos] == c
}

/// The syntax error `fault` at the position `pos`.
pub open spec fn syntax_error(fault: SyntaxFault, pos: int) -> XmlParseError {
    XmlParseError::SyntaxError { fault, position: pos as usize }
}

/// `rest` with the items `prefix` before its own.
pub open spec fn with_prefix<T>(
    prefix: Seq<T>,
    rest: Result<(Seq<T>, int), XmlParseError>,
) -> Result<(Seq<T>, int), XmlParseError> {
    match rest {
        Ok((items, end)) => Ok((prefix + items, end)),
        Err(error) => Err(error),
    }
}

/// The entity reference that begins at `pos`: the character it stands for and
/// the number of characters it takes.
pub open spec fn entity_at(s: Seq<char>, pos: int) -> Option<(char, int)> {
    if at(s, pos, '&') && at(s, pos + 1, 'a') && at(s, pos + 2, 'm') && at(s, pos + 3, 'p') && at(
        s,
        pos + 4,
        ';',
    ) {
        Some(('&', 5))
    } else if at(s, pos, '&') && at(s, pos + 1, 'l') && at(s, pos + 2, 't') && at(s, pos + 3, ';') {
        Some(('<', 4))
    } else if at(s, pos, '&') && at(s, pos + 1, 'g') && at(s, pos + 2, 't') && at(s, pos + 3, ';') {
        Some(('>', 4))
    } else if at(s, pos, '&') && at(s, pos + 1, 'q') && at(s, pos + 2, 'u') && at(s, pos + 3, 'o')
        && at(s, pos + 4, 't') && at(s, pos + 5, ';') {
        Some(('"', 6))
    } else if at(s, pos, '&') && at(s, pos + 1, 'a') && at(s, pos + 2, 'p') && at(s, pos + 3, 'o')
        && at(s, pos + 4, 's') && at(s, pos + 5, ';') {
        Some(('\'', 6))
    } else {
        None
    }
}

/// The character data from `pos` up to the next `stop` or the end of the input,
/// with each entity reference replaced by its character, and where it ends.
pub open spec fn data(s: Seq<char>, pos: int, stop: char) -> Result<(Seq<char>, int), XmlParseError>
    decreases s.len() - pos,
{
    if !(0 <= pos < s.len()) || s[pos] == stop {
        Ok((Seq::empty(), pos))
    } else if s[pos] == '&' {
        match entity_at(s, pos) {
            Some((c, n)) => with_prefix(seq![c], data(s, pos + n, stop)),
            None => Err(syntax_error(SyntaxFault::UnknownEntity, pos)),
        }
    } else {
        with_prefix(seq![s[pos]], data(s, pos + 1, stop))
    }
}

/// The attribute whose key begins at `pos`.
pub open spec fn attribute(s: Seq<char>, pos: int) -> Result<(SpanModel, int), XmlParseError> {
    let key_end = name_end(s, pos);
    let equals = ws_end(s, key_end);
    if !at(s, equals, '=') {
        Err(syntax_error(SyntaxFault::ExpectedEquals, equals))
    } else {
        let quote = ws_end(s, equals + 1);
        if !at(s, quote, '"') {
            Err(syntax_error(SyntaxFault::ExpectedQuote, quote))
        } else {
            match data(s, quote + 1, '"') {
                Err(error) => Err(error),
                Ok((value, close)) => if !at(s, close, '"') {
                    Err(syntax_error(SyntaxFault::UnterminatedValue, close))
                } else {
                    Ok(
                        (
                            group(
                                Rule::Attribute,
                                pos,
                                close + 1,
                                seq![
                                    token(Rule::Key, pos, key_end, s.subrange(pos, key_end)),
                                    token(Rule::Value, quote + 1, close, value),
                                ],
                            ),
                            close + 1,
                        ),
                    )
                },
            }
        }
    }
}

/// The attributes of a start tag from `pos`, after its name, and the position of
/// the `>` that closes the tag.
pub open spec fn attributes(s: Seq<char>, pos: int) -> Result<(Seq<SpanModel>, int), XmlParseError>
    decreases s.len() - pos,
{
    let p = ws_end(s, pos);
    if at(s, p, '>') {
        Ok((Seq::empty(), p))
    } else if 0 <= p < s.len() && is_name_start(s[p]) {
        match attribute(s, p) {
            Err(error) => Err(error),
            Ok((found, next)) => {
                proof {
                    lemma_ws_end_advances(s, pos);
                    lemma_attribute_advances(s, p);
                }
                with_prefix(seq![found], attributes(s, next))
            },
        }
    } else {
        Err(syntax_error(SyntaxFault::ExpectedAttributeOrTagEnd, p))
    }
}

/// The name token that begins at `pos`.
pub open spec fn name_token(s: Seq<char>, pos: int) -> SpanModel {
    token(Rule::Name, pos, name_end(s, pos), s.subrange(pos, name_end(s, pos)))
}

/// The start tag whose `<` stands at `pos`.
pub open spec fn start_tag(s: Seq<char>, pos: int) -> Result<(SpanModel, int), XmlParseError> {
    if !(0 <= pos + 1 < s.len() && is_name_start(s[pos + 1])) {
        Err(syntax_error(SyntaxFault::ExpectedName, pos + 1))
    } else {
        match attributes(s, name_end(s, pos + 1)) {
            Err(error) => Err(error),
            Ok((found, close)) => Ok(
                (
                    group(Rule::StartTag, pos, close + 1, seq![name_token(s, pos + 1)] + found),
                    close + 1,
                ),
            ),
        }
    }
}

/// The end tag whose `</` stands at `pos`.
pub open spec fn end_tag(s: Seq<char>, pos: int) -> Result<(SpanModel, int), XmlParseError> {
    if !(0 <= pos + 2 < s.len() && is_name_start(s[pos + 2])) {
        Err(syntax_error(SyntaxFault::ExpectedName, pos + 2))
    } else {
        let close = ws_end(s, name_end(s, pos + 2));
        if !at(s, close, '>') {
            Err(syntax_error(SyntaxFault::ExpectedTagEnd, close))
        } else {
            Ok((group(Rule::EndTag, pos, close + 1, seq![name_token(s, pos + 2)]), close + 1))
        }
    }
}

/// The text that begins at `pos` and runs up to the next `<`.
pub open spec fn text(s: Seq<char>, pos: int) -> Result<(SpanModel, int), XmlParseError> {
    match data(s, pos, '<') {
        Err(error) => Err(error),
        Ok((content, end)) => Ok((token(Rule::Text, pos, end, content), end)),
    }
}

/// The element whose start tag begins at `pos`.
pub open spec fn element(s: Seq<char>, pos: int) -> Result<(SpanModel, int), XmlParseError>
    decreases s.len() - pos, 0nat,
{
    match start_tag(s, pos) {
        Err(error) => Err(error),
        Ok((open, after_open)) => {
            proof {
                lemma_start_tag_advances(s, pos);
            }
            match content(s, after_open) {
                Err(error) => Err(error),
                Ok((nested, close_at)) => match end_tag(s, close_at) {
                    Err(error) => Err(error),
                    Ok((close, end)) => if close.children[0].content != open.children[0].content {
                        Err(syntax_error(SyntaxFault::MismatchedEndTag, close_at + 2))
                    } else {
                        Ok((group(Rule::Element, pos, end, seq![open] + nested + seq![close]), end))
                    },
                },
            }
        },
    }
}

/// The elements and texts inside an element from `pos`, and the position of the
/// `</` that follows them.
///
/// The test `p < next <= s.len()` after a nested element is there for the
/// termination measure alone: `lemma_element_advances` shows that it never fails.
pub open spec fn content(s: Seq<char>, pos: int) -> Result<(Seq<SpanModel>, int), XmlParseError>
    decreases s.len() - pos, 1nat,
{
    let p = ws_end(s, pos);
    if !(0 <= p < s.len()) {
        Err(syntax_error(SyntaxFault::UnclosedElement, p))
    } else if s[p] == '<' {
        if at(s, p + 1, '/') {
            Ok((Seq::empty(), p))
        } else {
            proof {
                lemma_ws_end_advances(s, pos);
            }
            match element(s, p) {
                Err(error) => Err(error),
                Ok((nested, next)) => if p < next <= s.len() {
                    proof {
                        lemma_ws_end_advances(s, pos);
                    }
                    with_prefix(seq![nested], content(s, next))
                } else {
                    Err(syntax_error(SyntaxFault::UnclosedElement, p))
                },
            }
        }
    } else {
        match text(s, p) {
            Err(error) => Err(error),
            Ok((found, next)) => {
                proof {
                    lemma_ws_end_advances(s, pos);
                    lemma_data_advances(s, p, '<');
                }
                with_prefix(seq![found], content(s, next))
            },
        }
    }
}

/// The elements at the top level from `pos` to the end of the input.
pub open spec fn top_level(s: Seq<char>, pos: int) -> Result<(Seq<SpanModel>, int), XmlParseError>
    decreases s.len() - pos,
{
    let p = ws_end(s, pos);
    if !(0 <= p < s.len()) {
        Ok((Seq::empty(), p))
    } else if s[p] != '<' {
        Err(syntax_error(SyntaxFault::ExpectedElement, p))
    } else {
        match element(s, p) {
            Err(error) => Err(error),
            Ok((found, next)) => {
                proof {
                    lemma_ws_end_advances(s, pos);
                    lemma_element_advances(s, p);
                }
                with_prefix(seq![found], top_level(s, next))
            },
        }
    }
}

/// The end-of-input token of `s`.
pub open spec fn end_of_input(s: Seq<char>) -> SpanModel {
    token(Rule::EndOfInput, s.len() as int, s.len() as int, Seq::empty())
}

/// The document span of the input `s`: its top-level elements, then the end of
/// the input.
pub open spec fn document(s: Seq<char>) -> Result<SpanModel, XmlParseError> {
    match top_level(s, 0) {
        Err(error) => Err(error),
        Ok((elements, _)) => Ok(
            group(Rule::Document, 0, s.len() as int, elements.push(end_of_input(s))),
        ),
    }
}

/// Skipping whitespace never moves backwards.
pub proof fn lemma_ws_end_advances(s: Seq<char>, pos: int)
    ensures
        pos <= ws_end(s, pos),
        0 <= pos <= s.len() ==> ws_end(s, pos) <= s.len(),
    decreases s.len() - pos,
{
    if 0 <= pos < s.len() {
        lemma_ws_end_advances(s, pos + 1);
    }
}

/// Skipping name characters never moves backwards.
pub proof fn lemma_name_end_advances(s: Seq<char>, pos: int)
    ensures
        pos <= name_end(s, pos),
        0 <= pos <= s.len() ==> name_end(s, pos) <= s.len(),
        0 <= pos < s.len() && is_name_char(s[pos]) ==> pos < name_end(s, pos),
    decreases s.len() - pos,
{
    if 0 <= pos < s.len() {
        lemma_name_end_advances(s, pos + 1);
    }
}

/// Character data ends at or after the position where it begins, on `stop` or at
/// the end of the input, and takes at least one character where it begins
/// with another character than `stop`.
pub proof fn lemma_data_advances(s: Seq<char>, pos: int, stop: char)
    ensures
        data(s, pos, stop) matches Ok((_, end)) ==> {
            &&& pos <= end
            &&& 0 <= pos <= s.len() ==> end <= s.len()
            &&& 0 <= pos <= s.len() ==> end == s.len() || at(s, end, stop)
            &&& 0 <= pos < s.len() && s[pos] != stop ==> pos < end
        },
    decreases s.len() - pos,
{
    if 0 <= pos < s.len() && s[pos] != stop {
        if s[pos] == '&' {
            match entity_at(s, pos) {
                Some((c, n)) => {
                    lemma_data_advances(s, pos + n, stop);
                },
                None => {},
            }
        } else {
            lemma_data_advances(s, pos + 1, stop);
        }
    }
}

/// Character data that holds no `&` is the input as it stands, up to the next
/// `stop` or the end of the input.
pub proof fn lemma_data_plain(s: Seq<char>, pos: int, stop: char, end: int)
    requires
        0 <= pos <= end <= s.len(),
        forall|i: int| pos <= i < end ==> #[trigger] s[i] != '&' && s[i] != stop,
        end < s.len() ==> s[end] == stop,
    ensures
        data(s, pos, stop) == Ok::<(Seq<char>, int), XmlParseError>((s.subrange(pos, end), end)),
    decreases end - pos,
{
    if pos < end {
        lemma_data_plain(s, pos + 1, stop, end);
        assert(seq![s[pos]] + s.subrange(pos + 1, end) =~= s.subrange(pos, end));
    } else {
        assert(s.subrange(pos, end) =~= Seq::<char>::empty());
    }
}

/// An attribute ends after the position where it begins.
pub proof fn lemma_attribute_advances(s: Seq<char>, pos: int)
    ensures
        attribute(s, pos) matches Ok((_, next)) ==> pos < next && (0 <= pos ==> next <= s.len()),
{
    lemma_name_end_advances(s, pos);
    lemma_ws_end_advances(s, name_end(s, pos));
    let equals = ws_end(s, name_end(s, pos));
    lemma_ws_end_advances(s, equals + 1);
    let quote = ws_end(s, equals + 1);
    lemma_data_advances(s, quote + 1, '"');
}

/// The attributes of a start tag end on its `>`.
pub proof fn lemma_attributes_advance(s: Seq<char>, pos: int)
    ensures
        attributes(s, pos) matches Ok((_, close)) ==> pos <= close && at(s, close, '>'),
    decreases s.len() - pos,
{
    lemma_ws_end_advances(s, pos);
    let p = ws_end(s, pos);
    if !at(s, p, '>') && 0 <= p < s.len() && is_name_start(s[p]) {
        lemma_attribute_advances(s, p);
        match attribute(s, p) {
            Ok((_, next)) => {
                lemma_attributes_advance(s, next);
            },
            Err(_) => {},
        }
    }
}

/// A start tag ends after the position where it begins, within the input.
pub proof fn lemma_start_tag_advances(s: Seq<char>, pos: int)
    ensures
        start_tag(s, pos) matches Ok((_, next)) ==> pos + 2 < next <= s.len(),
{
    lemma_name_end_advances(s, pos + 1);
    lemma_attributes_advance(s, name_end(s, pos + 1));
}

/// An end tag ends after the position where it begins, within the input.
pub proof fn lemma_end_tag_advances(s: Seq<char>, pos: int)
    ensures
        end_tag(s, pos) matches Ok((_, next)) ==> pos + 3 < next <= s.len(),
{
    lemma_name_end_advances(s, pos + 2);
    lemma_ws_end_advances(s, name_end(s, pos + 2));
}

/// An element ends after the position where it begins, within the input.
pub proof fn lemma_element_advances(s: Seq<char>, pos: int)
    ensures
        element(s, pos) matches Ok((_, next)) ==> pos < next <= s.len(),
{
    lemma_start_tag_advances(s, pos);
    match start_tag(s, pos) {
        Ok((_, after_open)) => match content(s, after_open) {
            Ok((_, close_at)) => {
                lemma_content_advances(s, after_open);
                lemma_end_tag_advances(s, close_at);
            },
            Err(_) => {},
        },
        Err(_) => {},
    }
}

/// The content of an element ends at or after the position where it begins, on
/// the `</` of an end tag.
pub proof fn lemma_content_advances(s: Seq<char>, pos: int)
    ensures
        content(s, pos) matches Ok((_, close_at)) ==> pos <= close_at && at(s, close_at, '<') && at(
            s,
            close_at + 1,
            '/',
        ),
    decreases s.len() - pos,
{
    lemma_ws_end_advances(s, pos);
    let p = ws_end(s, pos);
    if 0 <= p < s.len() {
        if s[p] == '<' {
            if !at(s, p + 1, '/') {
                match element(s, p) {
                    Ok((_, next)) => {
                        if p < next <= s.len() {
                            lemma_content_advances(s, next);
                        }
                    },
                    Err(_) => {},
                }
            }
        } else {
            lemma_data_advances(s, p, '<');
            match text(s, p) {
                Ok((_, next)) => {
                    lemma_content_advances(s, next);
                },
                Err(_) => {},
            }
        }
    }
}

} // verus!
