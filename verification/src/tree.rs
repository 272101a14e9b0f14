//! Parse trees: what it means for a tree of spans to be a parse of an input,
//! stated over the characters of the input.
//!
//! The functions of the grammar give an input its parse tree where it has one
//! (`lemma_document_tree`), and an input has no other parse tree than the one
//! they give (`lemma_tree_document`): together, `lemma_document_unique`.

use vstd::prelude::*;
use crate::chars::{is_name_char, is_name_start, is_whitespace};
use crate::error::XmlParseError;
use crate::grammar::{
    at, attribute, attributes, content, data, document, element, end_of_input, end_tag,
    lemma_attribute_advances, lemma_content_advances, lemma_data_advances,
    lemma_element_advances, lemma_name_end_advances, lemma_start_tag_advances, name_token,
    entity_at, start_tag, text, top_level,
};
use crate::scan::{
    lemma_name_end, lemma_name_end_unique, lemma_ws_end, lemma_ws_end_unique, name_end, ws_end,
};
use crate::span::{token, Rule, SpanModel};

verus! {

/// Whether every character of `s` from `from` up to `to` is whitespace.
#[verifier::opaque]
pub open spec fn all_whitespace(s: Seq<char>, from: int, to: int) -> bool {
    forall|i: int| from <= i < to ==> is_whitespace(#[trigger] s[i])
}

/// Whether every character of `s` from `from` up to `to` is a name character.
#[verifier::opaque]
pub open spec fn all_name_chars(s: Seq<char>, from: int, to: int) -> bool {
    forall|i: int| from <= i < to ==> is_name_char(#[trigger] s[i])
}

/// Whether no character of `s` from `from` up to `to` is `c`.
#[verifier::opaque]
pub open spec fn free_of(s: Seq<char>, from: int, to: int, c: char) -> bool {
    forall|i: int| from <= i < to ==> #[trigger] s[i] != c
}

/// Whether `found` is what the characters of `s` from `from` up to `to` stand
/// for: each entity reference stands for its character, and every other
/// character for itself.
pub open spec fn resolves(s: Seq<char>, from: int, to: int, found: Seq<char>) -> bool
    decreases to - from,
{
    if from >= to {
        from == to && found.len() == 0
    } else if s[from] == '&' {
        &&& entity_at(s, from) matches Some((c, n))
        &&& from + n <= to
        &&& found.len() > 0
        &&& found[0] == c
        &&& resolves(s, from + n, to, found.skip(1))
    } else {
        &&& found.len() > 0
        &&& found[0] == s[from]
        &&& resolves(s, from + 1, to, found.skip(1))
    }
}

/// Whether `s` holds only whitespace from `from` up to `to`.
pub open spec fn blank(s: Seq<char>, from: int, to: int) -> bool {
    0 <= from <= to <= s.len() && all_whitespace(s, from, to)
}

/// Whether `s` holds only whitespace between the span before `spans[i]`, or
/// `from` where it is the first, and `spans[i]`.
pub open spec fn gap(s: Seq<char>, from: int, spans: Seq<SpanModel>, i: int) -> bool {
    blank(
        s,
        if i == 0 {
            from
        } else {
            spans[i - 1].end
        },
        spans[i].start,
    )
}

/// Whether `spans` stand one after the other between `from` and `to`, with only
/// whitespace before, between and after them.
pub open spec fn spaced(s: Seq<char>, from: int, spans: Seq<SpanModel>, to: int) -> bool {
    &&& forall|i: int| 0 <= i < spans.len() ==> #[trigger] gap(s, from, spans, i)
    &&& blank(
        s,
        if spans.len() == 0 {
            from
        } else {
            spans[spans.len() - 1].end
        },
        to,
    )
}

/// Whether `span` is a token of the rule `rule`.
pub open spec fn is_token(span: SpanModel, rule: Rule) -> bool {
    span.rule == rule && span.children.len() == 0
}

/// Whether `span` is a group of the rule `rule`.
pub open spec fn is_group(span: SpanModel, rule: Rule) -> bool {
    span.rule == rule && span.content.len() == 0
}

/// Whether `span` is the name token of the rule `rule` that `s` holds at
/// `span.start`: a letter and the name characters after it, as many as there are.
pub open spec fn name_tree(s: Seq<char>, span: SpanModel, rule: Rule) -> bool {
    &&& is_token(span, rule)
    &&& 0 <= span.start < span.end <= s.len()
    &&& is_name_start(s[span.start])
    &&& all_name_chars(s, span.start, span.end)
    &&& span.end < s.len() ==> !is_name_char(s[span.end])
    &&& span.content == s.subrange(span.start, span.end)
}

/// Whether `span` is the value token that `s` holds at `span.start`: what the
/// characters up to the closing quote stand for.
pub open spec fn value_tree(s: Seq<char>, span: SpanModel) -> bool {
    &&& is_token(span, Rule::Value)
    &&& 0 <= span.start <= span.end < s.len()
    &&& free_of(s, span.start, span.end, '"')
    &&& s[span.end] == '"'
    &&& resolves(s, span.start, span.end, span.content)
}

/// Whether `span` is the text token that `s` holds at `span.start`: what the
/// characters up to the next `<` or the end of the input stand for, beginning
/// with no whitespace.
pub open spec fn text_tree(s: Seq<char>, span: SpanModel) -> bool {
    &&& is_token(span, Rule::Text)
    &&& 0 <= span.start < span.end <= s.len()
    &&& !is_whitespace(s[span.start])
    &&& free_of(s, span.start, span.end, '<')
    &&& span.end < s.len() ==> s[span.end] == '<'
    &&& resolves(s, span.start, span.end, span.content)
}

/// Whether `span` is an attribute of `s`: a key, `=` and a quoted value, with
/// only whitespace around the `=`.
pub open spec fn attribute_tree(s: Seq<char>, span: SpanModel) -> bool {
    &&& is_group(span, Rule::Attribute)
    &&& span.children.len() == 2
    &&& name_tree(s, span.children[0], Rule::Key)
    &&& value_tree(s, span.children[1])
    &&& span.start == span.children[0].start
    &&& span.end == span.children[1].end + 1
    &&& at(s, span.children[1].start - 1, '"')
    &&& exists|equals: int|
        blank(s, span.children[0].end, equals) && #[trigger] at(s, equals, '=') && blank(
            s,
            equals + 1,
            span.children[1].start - 1,
        )
}

/// Whether `span` is a start tag of `s`: `<`, a name, attributes and `>`, with
/// only whitespace between the attributes and before the `>`.
pub open spec fn start_tag_tree(s: Seq<char>, span: SpanModel) -> bool {
    &&& is_group(span, Rule::StartTag)
    &&& span.children.len() >= 1
    &&& at(s, span.start, '<')
    &&& name_tree(s, span.children[0], Rule::Name)
    &&& span.children[0].start == span.start + 1
    &&& forall|i: int|
        #![trigger span.children[i]]
        1 <= i < span.children.len() ==> attribute_tree(s, span.children[i])
    &&& spaced(s, span.children[0].end, span.children.skip(1), span.end - 1)
    &&& at(s, span.end - 1, '>')
}

/// Whether `span` is an end tag of `s`: `</`, a name and `>`, with only
/// whitespace before the `>`.
pub open spec fn end_tag_tree(s: Seq<char>, span: SpanModel) -> bool {
    &&& is_group(span, Rule::EndTag)
    &&& span.children.len() == 1
    &&& at(s, span.start, '<')
    &&& at(s, span.start + 1, '/')
    &&& name_tree(s, span.children[0], Rule::Name)
    &&& span.children[0].start == span.start + 2
    &&& blank(s, span.children[0].end, span.end - 1)
    &&& at(s, span.end - 1, '>')
}

/// Whether `span` is an element of `s`: a start tag, elements and texts, and an
/// end tag with the name of the start tag, with only whitespace between them.
pub open spec fn element_tree(s: Seq<char>, span: SpanModel) -> bool
    decreases span,
{
    &&& is_group(span, Rule::Element)
    &&& span.children.len() >= 2
    &&& start_tag_tree(s, span.children[0])
    &&& span.children[0].start == span.start
    &&& end_tag_tree(s, span.children[span.children.len() - 1])
    &&& span.children[span.children.len() - 1].end == span.end
    &&& span.children[span.children.len() - 1].children[0].content
        == span.children[0].children[0].content
    &&& forall|i: int|
        #![trigger span.children[i]]
        1 <= i < span.children.len() - 1 ==> {
            ||| span.children[i].rule == Rule::Element && element_tree(s, span.children[i])
            ||| text_tree(s, span.children[i])
        }
    &&& spaced(
        s,
        span.children[0].end,
        span.children.subrange(1, span.children.len() - 1),
        span.children[span.children.len() - 1].start,
    )
}

/// Whether each of `spans` is an element or a text of `s`.
pub open spec fn content_trees(s: Seq<char>, spans: Seq<SpanModel>) -> bool {
    forall|i: int|
        #![trigger spans[i]]
        0 <= i < spans.len() ==> {
            ||| spans[i].rule == Rule::Element && element_tree(s, spans[i])
            ||| text_tree(s, spans[i])
        }
}

/// Whether each of `spans` is an element of `s`.
pub open spec fn element_trees(s: Seq<char>, spans: Seq<SpanModel>) -> bool {
    forall|i: int| #![trigger spans[i]] 0 <= i < spans.len() ==> element_tree(s, spans[i])
}

/// Whether `root` is the parse tree of the document `s`: its elements, with only
/// whitespace around them, and the end of the input.
pub open spec fn document_tree(s: Seq<char>, root: SpanModel) -> bool {
    &&& is_group(root, Rule::Document)
    &&& root.start == 0
    &&& root.end == s.len()
    &&& root.children.len() >= 1
    &&& root.children[root.children.len() - 1] == end_of_input(s)
    &&& element_trees(s, root.children.take(root.children.len() - 1))
    &&& spaced(s, 0, root.children.take(root.children.len() - 1), s.len() as int)
}

/// The name token that the grammar reads at a letter is the name that stands there.
pub proof fn lemma_name_tree(s: Seq<char>, pos: int)
    requires
        0 <= pos < s.len(),
        is_name_start(s[pos]),
    ensures
        name_tree(s, name_token(s, pos), Rule::Name),
        name_tree(
            s,
            token(Rule::Key, pos, name_end(s, pos), s.subrange(pos, name_end(s, pos))),
            Rule::Key,
        ),
        name_token(s, pos).start == pos,
        name_token(s, pos).end == name_end(s, pos),
{
    reveal(all_name_chars);
    lemma_name_end(s, pos);
}

/// Whitespace is blank up to where it ends.
pub proof fn lemma_blank_ws(s: Seq<char>, pos: int)
    requires
        0 <= pos <= s.len(),
    ensures
        blank(s, pos, ws_end(s, pos)),
        ws_end(s, pos) < s.len() ==> !is_whitespace(s[ws_end(s, pos)]),
{
    reveal(all_whitespace);
    lemma_ws_end(s, pos);
}

/// The character data that the grammar reads up to `<` or `"` is what the
/// characters before that `<` or `"` stand for.
pub proof fn lemma_data_resolves(s: Seq<char>, pos: int, stop: char)
    requires
        0 <= pos <= s.len(),
        stop == '<' || stop == '"',
    ensures
        data(s, pos, stop) matches Ok((found, end)) ==> {
            &&& pos <= end <= s.len()
            &&& free_of(s, pos, end, stop)
            &&& end < s.len() ==> s[end] == stop
            &&& resolves(s, pos, end, found)
        },
    decreases s.len() - pos,
{
    reveal(free_of);
    if pos < s.len() && s[pos] != stop {
        if s[pos] == '&' {
            match entity_at(s, pos) {
                Some((c, n)) => {
                    lemma_data_resolves(s, pos + n, stop);
                    match data(s, pos + n, stop) {
                        Ok((rest, _)) => {
                            assert((seq![c] + rest).skip(1) =~= rest);
                        },
                        Err(_) => {},
                    }
                },
                None => {},
            }
        } else {
            lemma_data_resolves(s, pos + 1, stop);
            match data(s, pos + 1, stop) {
                Ok((rest, _)) => {
                    assert((seq![s[pos]] + rest).skip(1) =~= rest);
                },
                Err(_) => {},
            }
        }
    }
}

/// What the characters before a `<` or `"` stand for is the character data that
/// the grammar reads up to it.
pub proof fn lemma_resolves_data(s: Seq<char>, pos: int, end: int, stop: char, found: Seq<char>)
    requires
        0 <= pos <= end <= s.len(),
        stop == '<' || stop == '"',
        free_of(s, pos, end, stop),
        end < s.len() ==> s[end] == stop,
        resolves(s, pos, end, found),
    ensures
        data(s, pos, stop) == Ok::<(Seq<char>, int), XmlParseError>((found, end)),
    decreases end - pos,
{
    reveal(free_of);
    if pos < end {
        if s[pos] == '&' {
            match entity_at(s, pos) {
                Some((c, n)) => {
                    lemma_resolves_data(s, pos + n, end, stop, found.skip(1));
                    assert(seq![c] + found.skip(1) =~= found);
                },
                None => {},
            }
        } else {
            lemma_resolves_data(s, pos + 1, end, stop, found.skip(1));
            assert(seq![s[pos]] + found.skip(1) =~= found);
        }
    } else {
        assert(found =~= Seq::<char>::empty());
    }
}

/// The text that the grammar reads is a text of the input.
pub proof fn lemma_text_tree(s: Seq<char>, pos: int)
    requires
        0 <= pos < s.len(),
        s[pos] != '<',
        !is_whitespace(s[pos]),
    ensures
        text(s, pos) matches Ok((found, next)) ==> text_tree(s, found) && found.start == pos
            && found.end == next,
{
    lemma_data_resolves(s, pos, '<');
    lemma_data_advances(s, pos, '<');
}

/// Putting a span before spaced spans leaves them spaced.
pub proof fn lemma_spaced_prepend(
    s: Seq<char>,
    from: int,
    first: SpanModel,
    rest: Seq<SpanModel>,
    to: int,
)
    requires
        blank(s, from, first.start),
        spaced(s, first.end, rest, to),
    ensures
        spaced(s, from, seq![first] + rest, to),
{
    let spans = seq![first] + rest;
    assert forall|i: int| 0 <= i < spans.len() implies #[trigger] gap(s, from, spans, i) by {
        if i > 0 {
            assert(gap(s, first.end, rest, i - 1));
        }
    }
}

/// The attribute that the grammar reads is an attribute of the input.
pub proof fn lemma_attribute_tree(s: Seq<char>, pos: int)
    requires
        0 <= pos < s.len(),
        is_name_start(s[pos]),
    ensures
        attribute(s, pos) matches Ok((found, next)) ==> attribute_tree(s, found) && found.start
            == pos && found.end == next,
{
    lemma_name_tree(s, pos);
    lemma_name_end_advances(s, pos);
    let key_end = name_end(s, pos);
    lemma_blank_ws(s, key_end);
    let equals = ws_end(s, key_end);
    if at(s, equals, '=') {
        lemma_blank_ws(s, equals + 1);
        let quote = ws_end(s, equals + 1);
        if at(s, quote, '"') {
            lemma_data_resolves(s, quote + 1, '"');
        }
    }
}

/// The attributes that the grammar reads are attributes of the input, spaced
/// up to the `>` of the tag.
pub proof fn lemma_attributes_tree(s: Seq<char>, pos: int)
    requires
        0 <= pos <= s.len(),
    ensures
        attributes(s, pos) matches Ok((found, close)) ==> {
            &&& forall|i: int| #![trigger found[i]] 0 <= i < found.len() ==> attribute_tree(s, found[i])
            &&& spaced(s, pos, found, close)
            &&& at(s, close, '>')
        },
    decreases s.len() - pos,
{
    lemma_blank_ws(s, pos);
    let p = ws_end(s, pos);
    if !at(s, p, '>') && 0 <= p < s.len() && is_name_start(s[p]) {
        lemma_attribute_advances(s, p);
        lemma_attribute_tree(s, p);
        match attribute(s, p) {
            Ok((first, next)) => {
                lemma_attributes_tree(s, next);
                match attributes(s, next) {
                    Ok((rest, close)) => {
                        lemma_spaced_prepend(s, pos, first, rest, close);
                    },
                    Err(_) => {},
                }
            },
            Err(_) => {},
        }
    }
}

/// The start tag that the grammar reads is a start tag of the input.
pub proof fn lemma_start_tag_tree(s: Seq<char>, pos: int)
    requires
        at(s, pos, '<'),
    ensures
        start_tag(s, pos) matches Ok((found, next)) ==> start_tag_tree(s, found) && found.start
            == pos && found.end == next,
{
    if 0 <= pos + 1 < s.len() && is_name_start(s[pos + 1]) {
        lemma_name_tree(s, pos + 1);
        lemma_name_end_advances(s, pos + 1);
        lemma_attributes_tree(s, name_end(s, pos + 1));
        match attributes(s, name_end(s, pos + 1)) {
            Ok((rest, close)) => {
                let parts = seq![name_token(s, pos + 1)] + rest;
                assert(parts.skip(1) =~= rest);
            },
            Err(_) => {},
        }
    }
}

/// The end tag that the grammar reads is an end tag of the input.
pub proof fn lemma_end_tag_tree(s: Seq<char>, pos: int)
    requires
        at(s, pos, '<'),
        at(s, pos + 1, '/'),
    ensures
        end_tag(s, pos) matches Ok((found, next)) ==> end_tag_tree(s, found) && found.start == pos
            && found.end == next,
{
    if 0 <= pos + 2 < s.len() && is_name_start(s[pos + 2]) {
        lemma_name_tree(s, pos + 2);
        lemma_name_end_advances(s, pos + 2);
        lemma_blank_ws(s, name_end(s, pos + 2));
    }
}

/// The element that the grammar reads is an element of the input.
pub proof fn lemma_element_tree(s: Seq<char>, pos: int)
    requires
        at(s, pos, '<'),
    ensures
        element(s, pos) matches Ok((found, next)) ==> element_tree(s, found) && found.start == pos
            && found.end == next,
    decreases s.len() - pos, 0nat,
{
    lemma_start_tag_advances(s, pos);
    lemma_start_tag_tree(s, pos);
    match start_tag(s, pos) {
        Ok((open, after_open)) => {
            lemma_content_tree(s, after_open);
            lemma_content_advances(s, after_open);
            match content(s, after_open) {
                Ok((nested, close_at)) => {
                    lemma_end_tag_tree(s, close_at);
                    match end_tag(s, close_at) {
                        Ok((close, end)) => {
                            if close.children[0].content == open.children[0].content {
                                let parts = seq![open] + nested + seq![close];
                                assert(parts.subrange(1, parts.len() - 1) =~= nested);
                            }
                        },
                        Err(_) => {},
                    }
                },
                Err(_) => {},
            }
        },
        Err(_) => {},
    }
}

/// The content that the grammar reads is elements and texts of the input,
/// spaced up to the `</` of the end tag.
pub proof fn lemma_content_tree(s: Seq<char>, pos: int)
    requires
        0 <= pos <= s.len(),
    ensures
        content(s, pos) matches Ok((found, close_at)) ==> {
            &&& content_trees(s, found)
            &&& spaced(s, pos, found, close_at)
        },
    decreases s.len() - pos, 1nat,
{
    lemma_blank_ws(s, pos);
    let p = ws_end(s, pos);
    if 0 <= p < s.len() {
        if s[p] == '<' {
            if !at(s, p + 1, '/') {
                lemma_element_tree(s, p);
                match element(s, p) {
                    Ok((first, next)) => {
                        if p < next <= s.len() {
                            lemma_content_tree(s, next);
                            match content(s, next) {
                                Ok((rest, close_at)) => {
                                    lemma_content_prepend(s, pos, first, rest, close_at);
                                },
                                Err(_) => {},
                            }
                        }
                    },
                    Err(_) => {},
                }
            }
        } else {
            lemma_text_tree(s, p);
            match text(s, p) {
                Ok((first, next)) => {
                    lemma_content_tree(s, next);
                    match content(s, next) {
                        Ok((rest, close_at)) => {
                            lemma_content_prepend(s, pos, first, rest, close_at);
                        },
                        Err(_) => {},
                    }
                },
                Err(_) => {},
            }
        }
    }
}

/// Putting an element or a text before spaced elements and texts leaves them so.
proof fn lemma_content_prepend(
    s: Seq<char>,
    from: int,
    first: SpanModel,
    rest: Seq<SpanModel>,
    to: int,
)
    requires
        blank(s, from, first.start),
        (first.rule == Rule::Element && element_tree(s, first)) || text_tree(s, first),
        content_trees(s, rest),
        spaced(s, first.end, rest, to),
    ensures
        content_trees(s, seq![first] + rest),
        spaced(s, from, seq![first] + rest, to),
{
    lemma_spaced_prepend(s, from, first, rest, to);
}

/// The top level that the grammar reads is elements of the input, spaced up to
/// its end.
pub proof fn lemma_top_level_tree(s: Seq<char>, pos: int)
    requires
        0 <= pos <= s.len(),
    ensures
        top_level(s, pos) matches Ok((found, _)) ==> {
            &&& element_trees(s, found)
            &&& spaced(s, pos, found, s.len() as int)
        },
    decreases s.len() - pos,
{
    lemma_blank_ws(s, pos);
    let p = ws_end(s, pos);
    if 0 <= p < s.len() && s[p] == '<' {
        lemma_element_tree(s, p);
        lemma_element_advances(s, p);
        match element(s, p) {
            Ok((first, next)) => {
                lemma_top_level_tree(s, next);
                match top_level(s, next) {
                    Ok((rest, _)) => {
                        lemma_spaced_prepend(s, pos, first, rest, s.len() as int);
                    },
                    Err(_) => {},
                }
            },
            Err(_) => {},
        }
    }
}

/// The span tree that the grammar gives an input is its parse tree.
pub proof fn lemma_document_tree(s: Seq<char>)
    ensures
        document(s) matches Ok(root) ==> document_tree(s, root),
{
    lemma_top_level_tree(s, 0);
    match top_level(s, 0) {
        Ok((elements, _)) => {
            let children = elements.push(end_of_input(s));
            assert(children.take(children.len() - 1) =~= elements);
        },
        Err(_) => {},
    }
}

/// Spaced spans without the first are spaced from the end of the first.
pub proof fn lemma_spaced_skip(s: Seq<char>, from: int, spans: Seq<SpanModel>, to: int)
    requires
        spans.len() > 0,
        spaced(s, from, spans, to),
    ensures
        blank(s, from, spans[0].start),
        spaced(s, spans[0].end, spans.skip(1), to),
{
    let rest = spans.skip(1);
    assert(gap(s, from, spans, 0));
    assert forall|i: int| 0 <= i < rest.len() implies #[trigger] gap(s, spans[0].end, rest, i) by {
        assert(gap(s, from, spans, i + 1));
    }
}

/// Whitespace that is blank up to a character that is none ends there.
pub proof fn lemma_ws_blank(s: Seq<char>, from: int, to: int)
    requires
        blank(s, from, to),
        to < s.len() ==> !is_whitespace(s[to]),
    ensures
        ws_end(s, from) == to,
{
    reveal(all_whitespace);
    lemma_ws_end_unique(s, from, to);
}

/// The grammar reads a name of the input as the name token that it is.
pub proof fn lemma_name_complete(s: Seq<char>, span: SpanModel, rule: Rule)
    requires
        name_tree(s, span, rule),
    ensures
        name_end(s, span.start) == span.end,
        rule == Rule::Name ==> name_token(s, span.start) == span,
        span == token(rule, span.start, span.end, s.subrange(span.start, span.end)),
{
    reveal(all_name_chars);
    lemma_name_end_unique(s, span.start, span.end);
    assert(span.children =~= Seq::<SpanModel>::empty());
}

/// The grammar reads an attribute of the input as the span that it is.
pub proof fn lemma_attribute_complete(s: Seq<char>, span: SpanModel)
    requires
        attribute_tree(s, span),
    ensures
        attribute(s, span.start) == Ok::<(SpanModel, int), XmlParseError>(
            (span, span.end),
        ),
{
    let key = span.children[0];
    let value = span.children[1];
    lemma_name_complete(s, key, Rule::Key);
    let equals = choose|equals: int|
        blank(s, key.end, equals) && #[trigger] at(s, equals, '=') && blank(
            s,
            equals + 1,
            value.start - 1,
        );
    lemma_ws_blank(s, key.end, equals);
    lemma_ws_blank(s, equals + 1, value.start - 1);
    lemma_resolves_data(s, value.start, value.end, '"', value.content);
    assert(value.children =~= Seq::<SpanModel>::empty());
    assert(span.children =~= seq![key, value]);
    assert(span.content =~= Seq::<char>::empty());
}

/// The grammar reads the attributes of a start tag of the input as the spans
/// that they are.
pub proof fn lemma_attributes_complete(s: Seq<char>, from: int, spans: Seq<SpanModel>, to: int)
    requires
        forall|i: int| #![trigger spans[i]] 0 <= i < spans.len() ==> attribute_tree(s, spans[i]),
        spaced(s, from, spans, to),
        at(s, to, '>'),
    ensures
        attributes(s, from) == Ok::<(Seq<SpanModel>, int), XmlParseError>((spans, to)),
    decreases spans.len(),
{
    if spans.len() == 0 {
        lemma_ws_blank(s, from, to);
        assert(spans =~= Seq::<SpanModel>::empty());
    } else {
        let first = spans[0];
        lemma_spaced_skip(s, from, spans, to);
        lemma_ws_blank(s, from, first.start);
        lemma_attribute_complete(s, first);
        let rest = spans.skip(1);
        lemma_attributes_complete(s, first.end, rest, to);
        assert(seq![first] + rest =~= spans);
    }
}

/// The grammar reads a start tag of the input as the span that it is.
pub proof fn lemma_start_tag_complete(s: Seq<char>, span: SpanModel)
    requires
        start_tag_tree(s, span),
    ensures
        start_tag(s, span.start) == Ok::<(SpanModel, int), XmlParseError>(
            (span, span.end),
        ),
{
    let name = span.children[0];
    lemma_name_complete(s, name, Rule::Name);
    let rest = span.children.skip(1);
    lemma_attributes_complete(s, name.end, rest, span.end - 1);
    assert(seq![name] + rest =~= span.children);
    assert(span.content =~= Seq::<char>::empty());
}

/// The grammar reads an end tag of the input as the span that it is.
pub proof fn lemma_end_tag_complete(s: Seq<char>, span: SpanModel)
    requires
        end_tag_tree(s, span),
    ensures
        end_tag(s, span.start) == Ok::<(SpanModel, int), XmlParseError>(
            (span, span.end),
        ),
{
    let name = span.children[0];
    lemma_name_complete(s, name, Rule::Name);
    lemma_ws_blank(s, name.end, span.end - 1);
    assert(seq![name] =~= span.children);
    assert(span.content =~= Seq::<char>::empty());
}

/// The grammar reads a text of the input as the span that it is.
pub proof fn lemma_text_complete(s: Seq<char>, span: SpanModel)
    requires
        text_tree(s, span),
    ensures
        text(s, span.start) == Ok::<(SpanModel, int), XmlParseError>((span, span.end)),
        s[span.start] != '<',
{
    lemma_resolves_data(s, span.start, span.end, '<', span.content);
    assert(span.children =~= Seq::<SpanModel>::empty());
    assert(s[span.start] != '<') by {
        reveal(free_of);
    }
}

/// The grammar reads an element of the input as the span that it is.
pub proof fn lemma_element_complete(s: Seq<char>, span: SpanModel)
    requires
        element_tree(s, span),
    ensures
        element(s, span.start) == Ok::<(SpanModel, int), XmlParseError>(
            (span, span.end),
        ),
    decreases s.len() - span.start, 0nat,
{
    let last = span.children.len() - 1;
    let open = span.children[0];
    let close = span.children[last];
    let nested = span.children.subrange(1, last);
    lemma_start_tag_complete(s, open);
    lemma_start_tag_advances(s, span.start);
    lemma_content_complete(s, open.end, nested, close.start);
    lemma_end_tag_complete(s, close);
    assert(seq![open] + nested + seq![close] =~= span.children);
    assert(span.content =~= Seq::<char>::empty());
}

/// The grammar reads the elements and texts inside an element of the input as
/// the spans that they are.
pub proof fn lemma_content_complete(s: Seq<char>, from: int, spans: Seq<SpanModel>, to: int)
    requires
        content_trees(s, spans),
        spaced(s, from, spans, to),
        at(s, to, '<'),
        at(s, to + 1, '/'),
    ensures
        content(s, from) == Ok::<(Seq<SpanModel>, int), XmlParseError>((spans, to)),
    decreases s.len() - from, 1nat,
{
    if spans.len() == 0 {
        lemma_ws_blank(s, from, to);
        assert(spans =~= Seq::<SpanModel>::empty());
    } else {
        let first = spans[0];
        let rest = spans.skip(1);
        lemma_spaced_skip(s, from, spans, to);
        if first.rule == Rule::Element {
            lemma_ws_blank(s, from, first.start);
            lemma_element_complete(s, first);
            lemma_element_advances(s, first.start);
        } else {
            lemma_ws_blank(s, from, first.start);
            lemma_text_complete(s, first);
        }
        lemma_content_complete(s, first.end, rest, to);
        assert(seq![first] + rest =~= spans);
    }
}

/// An element of the input begins with `<`.
pub proof fn lemma_element_begins(s: Seq<char>, span: SpanModel)
    requires
        element_tree(s, span),
    ensures
        at(s, span.start, '<'),
{
}

/// Spaced elements without the first are spaced elements.
proof fn lemma_element_trees_skip(s: Seq<char>, from: int, spans: Seq<SpanModel>, to: int)
    requires
        spans.len() > 0,
        element_trees(s, spans),
        spaced(s, from, spans, to),
    ensures
        element_tree(s, spans[0]),
        blank(s, from, spans[0].start),
        element_trees(s, spans.skip(1)),
        spaced(s, spans[0].end, spans.skip(1), to),
{
    lemma_spaced_skip(s, from, spans, to);
}

/// Where the grammar reads an element after blank space, the top level from
/// the blank space is that element and the top level after it.
proof fn lemma_top_level_step(s: Seq<char>, from: int, spans: Seq<SpanModel>)
    requires
        spans.len() > 0,
        blank(s, from, spans[0].start),
        at(s, spans[0].start, '<'),
        element(s, spans[0].start) == Ok::<(SpanModel, int), XmlParseError>(
            (spans[0], spans[0].end),
        ),
        top_level(s, spans[0].end) == Ok::<(Seq<SpanModel>, int), XmlParseError>(
            (spans.skip(1), s.len() as int),
        ),
    ensures
        top_level(s, from) == Ok::<(Seq<SpanModel>, int), XmlParseError>(
            (spans, s.len() as int),
        ),
{
    lemma_ws_blank(s, from, spans[0].start);
    assert(seq![spans[0]] + spans.skip(1) =~= spans);
}

/// Where only whitespace is left, the top level has no more elements.
proof fn lemma_top_level_end(s: Seq<char>, from: int, spans: Seq<SpanModel>)
    requires
        spans.len() == 0,
        blank(s, from, s.len() as int),
    ensures
        top_level(s, from) == Ok::<(Seq<SpanModel>, int), XmlParseError>(
            (spans, s.len() as int),
        ),
{
    lemma_ws_blank(s, from, s.len() as int);
    assert(spans =~= Seq::<SpanModel>::empty());
}

/// The grammar reads the top-level elements of the input as the spans that
/// they are.
pub proof fn lemma_top_level_complete(s: Seq<char>, from: int, spans: Seq<SpanModel>)
    requires
        element_trees(s, spans),
        spaced(s, from, spans, s.len() as int),
    ensures
        top_level(s, from) == Ok::<(Seq<SpanModel>, int), XmlParseError>(
            (spans, s.len() as int),
        ),
    decreases spans.len(),
{
    if spans.len() == 0 {
        lemma_top_level_end(s, from, spans);
    } else {
        lemma_element_trees_skip(s, from, spans, s.len() as int);
        lemma_element_begins(s, spans[0]);
        lemma_element_complete(s, spans[0]);
        lemma_top_level_complete(s, spans[0].end, spans.skip(1));
        lemma_top_level_step(s, from, spans);
    }
}

/// A parse tree of an input is the span tree that the grammar gives it.
pub proof fn lemma_tree_document(s: Seq<char>, root: SpanModel)
    requires
        document_tree(s, root),
    ensures
        document(s) == Ok::<SpanModel, XmlParseError>(root),
{
    let elements = root.children.take(root.children.len() - 1);
    lemma_top_level_complete(s, 0, elements);
    assert(elements.push(end_of_input(s)) =~= root.children);
    assert(root.content =~= Seq::<char>::empty());
}

/// An input has a parse tree exactly where the grammar gives it a span tree, and
/// then it has no other: an input that the grammar refuses has no parse tree.
pub proof fn lemma_document_unique(s: Seq<char>, root: SpanModel)
    ensures
        document_tree(s, root) <==> document(s) == Ok::<SpanModel, XmlParseError>(
            root,
        ),
{
    lemma_document_tree(s);
    if document_tree(s, root) {
        lemma_tree_document(s, root);
    }
}

/// An input matches the grammar exactly where it has a parse tree.
pub proof fn lemma_document_exists(s: Seq<char>)
    ensures
        document(s) is Ok <==> exists|root: SpanModel| document_tree(s, root),
{
    lemma_document_tree(s);
    if exists|root: SpanModel| document_tree(s, root) {
        let root = choose|root: SpanModel| document_tree(s, root);
        lemma_tree_document(s, root);
    }
}

} // verus!
