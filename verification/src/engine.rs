//! The parse engine: it matches the input against the grammar and hands back
//! the tree of spans that the grammar gives it, or the grammar's syntax error.

use vstd::prelude::*;
use crate::chars::{chars_of, is_name_start, name_start};
use crate::error::{SyntaxFault, XmlParseError};
use crate::grammar::{
    at, attribute, attributes, content, data, document, element, end_tag, entity_at,
    lemma_data_advances, name_token, start_tag, syntax_error, text, top_level, with_prefix,
};
use crate::scan::{name_end, skip_name, skip_whitespace, string_of};
use crate::span::{lemma_span_children, lemma_spans_view_push, spans_view, Rule, Span, SpanModel};
use crate::tree::{document_tree, lemma_document_tree, lemma_tree_document};

verus! {

/// Whether what the engine returned is what the grammar gives.
pub open spec fn agrees(
    result: Result<(Span, usize), XmlParseError>,
    expected: Result<(SpanModel, int), XmlParseError>,
) -> bool {
    match result {
        Ok((span, next)) => expected == Ok::<(SpanModel, int), XmlParseError>((span@, next as int)),
        Err(error) => expected == Err::<(SpanModel, int), XmlParseError>(error),
    }
}

/// Whether the spans that the engine returned are those that the grammar gives.
pub open spec fn agree(
    result: Result<(Vec<Span>, usize), XmlParseError>,
    expected: Result<(Seq<SpanModel>, int), XmlParseError>,
) -> bool {
    match result {
        Ok((spans, next)) => expected == Ok::<(Seq<SpanModel>, int), XmlParseError>(
            (spans_view(spans@), next as int),
        ),
        Err(error) => expected == Err::<(Seq<SpanModel>, int), XmlParseError>(error),
    }
}

/// Nothing before `rest` leaves it as it is.
proof fn lemma_with_prefix_empty<T>(rest: Result<(Seq<T>, int), XmlParseError>)
    ensures
        with_prefix(Seq::<T>::empty(), rest) == rest,
{
}

/// Putting `prefix` before `item` and `rest` is putting `prefix` and `item` before `rest`.
proof fn lemma_with_prefix_push<T>(prefix: Seq<T>, item: T, rest: Result<(Seq<T>, int), XmlParseError>)
    ensures
        with_prefix(prefix, with_prefix(seq![item], rest)) == with_prefix(prefix.push(item), rest),
{
    match rest {
        Ok((items, end)) => {
            assert(prefix + (seq![item] + items) =~= prefix.push(item) + items);
        },
        Err(_) => {},
    }
}

/// The syntax error `fault` at `pos`.
fn syntax(fault: SyntaxFault, pos: usize) -> (error: XmlParseError)
    ensures
        error == syntax_error(fault, pos as int),
{
    XmlParseError::SyntaxError { fault, position: pos }
}

/// Whether `input` holds `c` at `pos + offset`.
fn holds(input: &Vec<char>, pos: usize, offset: usize, c: char) -> (found: bool)
    requires
        pos <= input.len(),
    ensures
        found == at(input@, pos + offset, c),
{
    offset < input.len() - pos && input[pos + offset] == c
}

/// Matches an entity reference at `pos`.
fn match_entity(input: &Vec<char>, pos: usize) -> (found: Option<(char, usize)>)
    requires
        pos < input.len(),
    ensures
        match found {
            Some((c, n)) => entity_at(input@, pos as int) == Some((c, n as int)) && 0 < n && pos + n
                <= input.len(),
            None => entity_at(input@, pos as int) is None,
        },
{
    if !holds(input, pos, 0, '&') {
        None
    } else if holds(input, pos, 1, 'a') && holds(input, pos, 2, 'm') && holds(input, pos, 3, 'p') && holds(
        input,
        pos,
        4,
        ';',
    ) {
        Some(('&', 5))
    } else if holds(input, pos, 1, 'l') && holds(input, pos, 2, 't') && holds(input, pos, 3, ';') {
        Some(('<', 4))
    } else if holds(input, pos, 1, 'g') && holds(input, pos, 2, 't') && holds(input, pos, 3, ';') {
        Some(('>', 4))
    } else if holds(input, pos, 1, 'q') && holds(input, pos, 2, 'u') && holds(input, pos, 3, 'o') && holds(
        input,
        pos,
        4,
        't',
    ) && holds(input, pos, 5, ';') {
        Some(('"', 6))
    } else if holds(input, pos, 1, 'a') && holds(input, pos, 2, 'p') && holds(input, pos, 3, 'o') && holds(
        input,
        pos,
        4,
        's',
    ) && holds(input, pos, 5, ';') {
        Some(('\'', 6))
    } else {
        None
    }
}

/// Matches character data from `pos` up to the next `stop` or the end of the input.
fn match_data(input: &Vec<char>, pos: usize, stop: char) -> (result: Result<
    (String, usize),
    XmlParseError,
>)
    requires
        pos <= input.len(),
    ensures
        match result {
            Ok((found, end)) => data(input@, pos as int, stop) == Ok::<
                (Seq<char>, int),
                XmlParseError,
            >((found@, end as int)) && pos <= end <= input.len(),
            Err(error) => data(input@, pos as int, stop) == Err::<(Seq<char>, int), XmlParseError>(
                error,
            ),
        },
{
    let mut found = String::new();
    let mut i: usize = pos;
    proof {
        lemma_with_prefix_empty(data(input@, pos as int, stop));
    }
    while i < input.len() && input[i] != stop
        invariant
            pos <= i <= input.len(),
            data(input@, pos as int, stop) == with_prefix(found@, data(input@, i as int, stop)),
        decreases input.len() - i,
    {
        let c = input[i];
        if c == '&' {
            match match_entity(input, i) {
                Some((decoded, n)) => {
                    proof {
                        lemma_with_prefix_push(found@, decoded, data(input@, i + n, stop));
                    }
                    found.push(decoded);
                    i += n;
                },
                None => {
                    return Err(syntax(SyntaxFault::UnknownEntity, i));
                },
            }
        } else {
            proof {
                lemma_with_prefix_push(found@, c, data(input@, i + 1, stop));
            }
            found.push(c);
            i += 1;
        }
    }
    Ok((found, i))
}

/// Matches the name token that begins at `pos`.
fn match_name(input: &Vec<char>, pos: usize) -> (name: Span)
    requires
        pos <= input.len(),
    ensures
        name@ == name_token(input@, pos as int),
        pos <= name.end <= input.len(),
{
    let end = skip_name(input, pos);
    Span::token(Rule::Name, pos, end, string_of(input, pos, end))
}

/// Matches the attribute whose key begins at `pos`.
fn match_attribute(input: &Vec<char>, pos: usize) -> (result: Result<(Span, usize), XmlParseError>)
    requires
        pos < input.len(),
    ensures
        agrees(result, attribute(input@, pos as int)),
        result matches Ok((_, next)) ==> pos < next <= input.len(),
{
    let key_end = skip_name(input, pos);
    let equals = skip_whitespace(input, key_end);
    if !(equals < input.len() && input[equals] == '=') {
        return Err(syntax(SyntaxFault::ExpectedEquals, equals));
    }
    let quote = skip_whitespace(input, equals + 1);
    if !(quote < input.len() && input[quote] == '"') {
        return Err(syntax(SyntaxFault::ExpectedQuote, quote));
    }
    match match_data(input, quote + 1, '"') {
        Err(error) => Err(error),
        Ok((value, close)) => {
            if !(close < input.len() && input[close] == '"') {
                return Err(syntax(SyntaxFault::UnterminatedValue, close));
            }
            let key = Span::token(Rule::Key, pos, key_end, string_of(input, pos, key_end));
            let value = Span::token(Rule::Value, quote + 1, close, value);
            let mut parts: Vec<Span> = Vec::new();
            parts.push(key);
            parts.push(value);
            proof {
                assert(spans_view(parts@) =~= seq![parts@[0]@, parts@[1]@]);
            }
            Ok((Span::group(Rule::Attribute, pos, close + 1, parts), close + 1))
        },
    }
}

/// Matches the start tag whose `<` stands at `pos`.
fn match_start_tag(input: &Vec<char>, pos: usize) -> (result: Result<(Span, usize), XmlParseError>)
    requires
        pos < input.len(),
    ensures
        agrees(result, start_tag(input@, pos as int)),
        result matches Ok((_, next)) ==> pos < next <= input.len(),
{
    if !(pos + 1 < input.len() && name_start(input[pos + 1])) {
        return Err(syntax(SyntaxFault::ExpectedName, pos + 1));
    }
    let name = match_name(input, pos + 1);
    let name_stop = name.end;
    let mut parts: Vec<Span> = Vec::new();
    parts.push(name);
    let ghost mut found: Seq<SpanModel> = Seq::empty();
    let mut p: usize = name_stop;
    proof {
        lemma_with_prefix_empty(attributes(input@, name_stop as int));
    }
    loop
        invariant
            pos + 1 < input.len(),
            is_name_start(input@[pos + 1]),
            pos < name_stop <= p <= input.len(),
            name_stop == name_end(input@, pos + 1),
            spans_view(parts@) == seq![name_token(input@, pos + 1)] + found,
            attributes(input@, name_stop as int) == with_prefix(found, attributes(input@, p as int)),
        decreases input.len() - p,
    {
        let q = skip_whitespace(input, p);
        if q < input.len() && input[q] == '>' {
            return Ok((Span::group(Rule::StartTag, pos, q + 1, parts), q + 1));
        }
        if !(q < input.len() && name_start(input[q])) {
            return Err(syntax(SyntaxFault::ExpectedAttributeOrTagEnd, q));
        }
        match match_attribute(input, q) {
            Err(error) => {
                return Err(error);
            },
            Ok((found_here, next)) => {
                proof {
                    lemma_with_prefix_push(found, found_here@, attributes(input@, next as int));
                    lemma_spans_view_push(parts@, found_here);
                    assert((seq![name_token(input@, pos + 1)] + found).push(found_here@) =~= seq![
                        name_token(input@, pos + 1),
                    ] + found.push(found_here@));
                    found = found.push(found_here@);
                }
                parts.push(found_here);
                p = next;
            },
        }
    }
}

/// Matches the end tag whose `</` stands at `pos`.
fn match_end_tag(input: &Vec<char>, pos: usize) -> (result: Result<(Span, usize), XmlParseError>)
    requires
        pos + 1 < input.len(),
    ensures
        agrees(result, end_tag(input@, pos as int)),
        result matches Ok((_, next)) ==> pos < next <= input.len(),
{
    if !(pos + 2 < input.len() && name_start(input[pos + 2])) {
        return Err(syntax(SyntaxFault::ExpectedName, pos + 2));
    }
    let name = match_name(input, pos + 2);
    let close = skip_whitespace(input, name.end);
    if !(close < input.len() && input[close] == '>') {
        return Err(syntax(SyntaxFault::ExpectedTagEnd, close));
    }
    let mut parts: Vec<Span> = Vec::new();
    parts.push(name);
    proof {
        assert(spans_view(parts@) =~= seq![name_token(input@, pos + 2)]);
    }
    Ok((Span::group(Rule::EndTag, pos, close + 1, parts), close + 1))
}

/// Matches the text that begins at `pos`.
fn match_text(input: &Vec<char>, pos: usize) -> (result: Result<(Span, usize), XmlParseError>)
    requires
        pos < input.len(),
        input[pos as int] != '<',
    ensures
        agrees(result, text(input@, pos as int)),
        result matches Ok((_, next)) ==> pos < next <= input.len(),
{
    proof {
        lemma_data_advances(input@, pos as int, '<');
    }
    match match_data(input, pos, '<') {
        Err(error) => Err(error),
        Ok((found, end)) => Ok((Span::token(Rule::Text, pos, end, found), end)),
    }
}

/// Matches the element whose start tag begins at `pos`.
fn match_element(input: &Vec<char>, pos: usize) -> (result: Result<(Span, usize), XmlParseError>)
    requires
        pos < input.len(),
    ensures
        agrees(result, element(input@, pos as int)),
        result matches Ok((_, next)) ==> pos < next <= input.len(),
    decreases input.len() - pos, 0nat,
{
    let (open, after_open) = match match_start_tag(input, pos) {
        Ok(found) => found,
        Err(error) => {
            return Err(error);
        },
    };
    let (mut nested, close_at) = match match_content(input, after_open) {
        Ok(found) => found,
        Err(error) => {
            return Err(error);
        },
    };
    let (close, end) = match match_end_tag(input, close_at) {
        Ok(found) => found,
        Err(error) => {
            return Err(error);
        },
    };
    proof {
        lemma_span_children(&open);
        lemma_span_children(&close);
    }
    if close.children[0].content != open.children[0].content {
        return Err(syntax(SyntaxFault::MismatchedEndTag, close_at + 2));
    }
    let ghost open_model = open@;
    let ghost nested_models = spans_view(nested@);
    let ghost close_model = close@;
    let mut parts: Vec<Span> = Vec::new();
    parts.push(open);
    parts.append(&mut nested);
    parts.push(close);
    proof {
        assert(spans_view(parts@) =~= seq![open_model] + nested_models + seq![close_model]);
    }
    Ok((Span::group(Rule::Element, pos, end, parts), end))
}

/// Matches the elements and texts inside an element from `pos`.
fn match_content(input: &Vec<char>, pos: usize) -> (result: Result<(Vec<Span>, usize), XmlParseError>)
    requires
        pos <= input.len(),
    ensures
        agree(result, content(input@, pos as int)),
        result matches Ok((_, close_at)) ==> pos <= close_at && close_at + 1 < input.len(),
    decreases input.len() - pos, 1nat,
{
    let mut found: Vec<Span> = Vec::new();
    let mut p: usize = pos;
    proof {
        lemma_with_prefix_empty(content(input@, pos as int));
    }
    loop
        invariant
            pos <= p <= input.len(),
            content(input@, pos as int) == with_prefix(spans_view(found@), content(input@, p as int)),
        decreases input.len() - p,
    {
        let q = skip_whitespace(input, p);
        if q >= input.len() {
            return Err(syntax(SyntaxFault::UnclosedElement, q));
        }
        if input[q] == '<' {
            if q + 1 < input.len() && input[q + 1] == '/' {
                return Ok((found, q));
            }
            match match_element(input, q) {
                Err(error) => {
                    return Err(error);
                },
                Ok((nested, next)) => {
                    proof {
                        lemma_with_prefix_push(
                            spans_view(found@),
                            nested@,
                            content(input@, next as int),
                        );
                        lemma_spans_view_push(found@, nested);
                    }
                    found.push(nested);
                    p = next;
                },
            }
        } else {
            match match_text(input, q) {
                Err(error) => {
                    return Err(error);
                },
                Ok((leaf, next)) => {
                    proof {
                        lemma_with_prefix_push(spans_view(found@), leaf@, content(input@, next as int));
                        lemma_spans_view_push(found@, leaf);
                    }
                    found.push(leaf);
                    p = next;
                },
            }
        }
    }
}

/// Parses `xml` against the grammar: the parse tree of the input, or the syntax
/// error that the grammar finds where the input has no parse tree.
pub fn parse_document(xml: &str) -> (result: Result<Span, XmlParseError>)
    ensures
        match result {
            Ok(root) => document(xml@) == Ok::<SpanModel, XmlParseError>(root@),
            Err(error) => document(xml@) == Err::<SpanModel, XmlParseError>(error),
        },
        result matches Ok(root) ==> document_tree(xml@, root@),
        result is Err ==> forall|root: SpanModel| !document_tree(xml@, root),
        xml@.len() <= usize::MAX,
{
    proof {
        lemma_document_tree(xml@);
        assert forall|root: SpanModel| document_tree(xml@, root) implies document(xml@) is Ok by {
            lemma_tree_document(xml@, root);
        }
    }
    let input = chars_of(xml);
    let mut found: Vec<Span> = Vec::new();
    let mut p: usize = 0;
    proof {
        lemma_with_prefix_empty(top_level(input@, 0));
    }
    loop
        invariant
            input@ == xml@,
            document(xml@) matches Ok(root) ==> document_tree(xml@, root),
            forall|root: SpanModel| document_tree(xml@, root) ==> document(xml@) is Ok,
            p <= input.len(),
            top_level(input@, 0) == with_prefix(spans_view(found@), top_level(input@, p as int)),
        decreases input.len() - p,
    {
        let q = skip_whitespace(&input, p);
        if q >= input.len() {
            let end = Span::token(Rule::EndOfInput, input.len(), input.len(), String::new());
            proof {
                lemma_spans_view_push(found@, end);
            }
            found.push(end);
            return Ok(Span::group(Rule::Document, 0, input.len(), found));
        }
        if input[q] != '<' {
            return Err(syntax(SyntaxFault::ExpectedElement, q));
        }
        match match_element(&input, q) {
            Err(error) => {
                return Err(error);
            },
            Ok((nested, next)) => {
                proof {
                    lemma_with_prefix_push(spans_view(found@), nested@, top_level(input@, next as int));
                    lemma_spans_view_push(found@, nested);
                }
                found.push(nested);
                p = next;
            },
        }
    }
}

} // verus!
