//! The shape of what the grammar gives: span trees that the tree builder can
//! read, and syntax errors at positions of the input.

use vstd::prelude::*;
use crate::builder::{
    attribute_complete, attributes_complete, buildable, document_buildable, first_stray,
    is_top_level,
};
use crate::chars::{is_name_char, is_name_start, is_whitespace};
use crate::error::XmlParseError;
use crate::grammar::{
    at, attribute, attributes, content, data, document, element, entity_at,
    lemma_attribute_advances, lemma_data_advances, lemma_element_advances,
    lemma_name_end_advances, lemma_ws_end_advances, start_tag, text, top_level,
};
use crate::scan::{name_end, ws_end};
use crate::span::{Rule, SpanModel};
use crate::tree::{
    all_name_chars, attribute_tree, element_tree, end_tag_tree, lemma_document_tree, name_tree,
    start_tag_tree, text_tree,
};

verus! {

/// Whether `text` is a name: a letter, then letters, digits, `_`, `-` or `.`.
pub open spec fn is_name(text: Seq<char>) -> bool {
    &&& text.len() > 0
    &&& is_name_start(text[0])
    &&& forall|i: int| 0 <= i < text.len() ==> is_name_char(#[trigger] text[i])
}

/// Whether `span` is a token of the rule `rule` that holds a name.
pub open spec fn is_name_span(span: SpanModel, rule: Rule) -> bool {
    span.rule == rule && span.children.len() == 0 && is_name(span.content)
}

/// Whether `span` is an attribute span as the grammar gives it: exactly a key,
/// which is a name, and a value, in that order.
pub open spec fn well_formed_attribute(span: SpanModel) -> bool {
    &&& span.rule == Rule::Attribute
    &&& span.children.len() == 2
    &&& is_name_span(span.children[0], Rule::Key)
    &&& span.children[1].rule == Rule::Value
    &&& span.children[1].children.len() == 0
}

/// Whether `span` is a start tag span as the grammar gives it: a name, then
/// attributes.
pub open spec fn well_formed_start_tag(span: SpanModel) -> bool {
    &&& span.rule == Rule::StartTag
    &&& span.children.len() >= 1
    &&& is_name_span(span.children[0], Rule::Name)
    &&& forall|i: int|
        #![trigger span.children[i]]
        1 <= i < span.children.len() ==> well_formed_attribute(span.children[i])
}

/// Whether `span` is an end tag span as the grammar gives it: a name.
pub open spec fn well_formed_end_tag(span: SpanModel) -> bool {
    &&& span.rule == Rule::EndTag
    &&& span.children.len() == 1
    &&& is_name_span(span.children[0], Rule::Name)
}

/// Whether `span` is a text span as the grammar gives it: character data that
/// begins with no whitespace.
pub open spec fn well_formed_text(span: SpanModel) -> bool {
    &&& span.rule == Rule::Text
    &&& span.children.len() == 0
    &&& span.content.len() > 0
    &&& !is_whitespace(span.content[0])
}

/// Whether `span` is an element span as the grammar gives it: a start tag, then
/// elements and texts, then an end tag with the name of the start tag.
pub open spec fn well_formed_element(span: SpanModel) -> bool
    decreases span,
{
    &&& span.rule == Rule::Element
    &&& span.children.len() >= 2
    &&& well_formed_start_tag(span.children[0])
    &&& well_formed_end_tag(span.children[span.children.len() - 1])
    &&& span.children[span.children.len() - 1].children[0].content
        == span.children[0].children[0].content
    &&& forall|i: int|
        #![trigger span.children[i]]
        1 <= i < span.children.len() - 1 ==> {
            ||| span.children[i].rule == Rule::Element && well_formed_element(span.children[i])
            ||| well_formed_text(span.children[i])
        }
}

/// Whether each of `spans` is an element as the grammar gives it.
pub open spec fn well_formed_elements(spans: Seq<SpanModel>) -> bool {
    forall|i: int| #![trigger spans[i]] 0 <= i < spans.len() ==> well_formed_element(spans[i])
}

/// Whether `root` is a document span as the grammar gives it: elements, then the
/// end of the input.
pub open spec fn well_formed_document(root: SpanModel) -> bool {
    &&& root.rule == Rule::Document
    &&& root.children.len() >= 1
    &&& root.children[root.children.len() - 1].rule == Rule::EndOfInput
    &&& well_formed_elements(root.children.take(root.children.len() - 1))
}

/// A name of an input has the shape of a name.
pub proof fn lemma_name_shape(s: Seq<char>, span: SpanModel, rule: Rule)
    requires
        name_tree(s, span, rule),
    ensures
        is_name_span(span, rule),
{
    reveal(all_name_chars);
}

/// An attribute of an input has the shape of an attribute.
pub proof fn lemma_attribute_shape(s: Seq<char>, span: SpanModel)
    requires
        attribute_tree(s, span),
    ensures
        well_formed_attribute(span),
{
    lemma_name_shape(s, span.children[0], Rule::Key);
}

/// A start tag of an input has the shape of a start tag.
pub proof fn lemma_start_tag_shape(s: Seq<char>, span: SpanModel)
    requires
        start_tag_tree(s, span),
    ensures
        well_formed_start_tag(span),
{
    lemma_name_shape(s, span.children[0], Rule::Name);
    assert forall|i: int| #![trigger span.children[i]] 1 <= i < span.children.len() implies well_formed_attribute(
        span.children[i],
    ) by {
        lemma_attribute_shape(s, span.children[i]);
    }
}

/// An end tag of an input has the shape of an end tag.
pub proof fn lemma_end_tag_shape(s: Seq<char>, span: SpanModel)
    requires
        end_tag_tree(s, span),
    ensures
        well_formed_end_tag(span),
{
    lemma_name_shape(s, span.children[0], Rule::Name);
}

/// A text of an input has the shape of a text.
pub proof fn lemma_text_shape(s: Seq<char>, span: SpanModel)
    requires
        text_tree(s, span),
    ensures
        well_formed_text(span),
{
}

/// An element of an input has the shape of an element.
pub proof fn lemma_element_shape(s: Seq<char>, span: SpanModel)
    requires
        element_tree(s, span),
    ensures
        well_formed_element(span),
    decreases span,
{
    lemma_start_tag_shape(s, span.children[0]);
    lemma_end_tag_shape(s, span.children[span.children.len() - 1]);
    assert forall|i: int| #![trigger span.children[i]] 1 <= i < span.children.len() - 1 implies {
        ||| span.children[i].rule == Rule::Element && well_formed_element(span.children[i])
        ||| well_formed_text(span.children[i])
    } by {
        let child = span.children[i];
        if child.rule == Rule::Element && element_tree(s, child) {
            lemma_element_shape(s, child);
        } else {
            lemma_text_shape(s, child);
        }
    }
}

/// The span tree that the grammar gives an input has the shape of a document.
pub proof fn lemma_document_shape(s: Seq<char>)
    ensures
        document(s) matches Ok(root) ==> well_formed_document(root),
{
    lemma_document_tree(s);
    match document(s) {
        Ok(root) => {
            let elements = root.children.take(root.children.len() - 1);
            assert forall|i: int| #![trigger elements[i]] 0 <= i < elements.len() implies well_formed_element(
                elements[i],
            ) by {
                lemma_element_shape(s, elements[i]);
            }
        },
        Err(_) => {},
    }
}

/// The tree builder can read an element of the grammar's shape.
pub proof fn lemma_well_formed_buildable(span: SpanModel)
    requires
        well_formed_element(span),
    ensures
        buildable(span),
    decreases span,
{
    let last = span.children.len() - 1;
    assert forall|i: int| #![trigger span.children[i]] 0 <= i < span.children.len() implies {
        &&& span.children[i].rule == Rule::StartTag ==> attributes_complete(
            span.children[i].children,
        )
        &&& span.children[i].rule == Rule::Element ==> buildable(span.children[i])
    } by {
        let child = span.children[i];
        if i == 0 {
        } else if i < last {
            if child.rule == Rule::Element {
                lemma_well_formed_buildable(child);
            }
        }
    }
}

/// The tree builder can read a document of the grammar's shape, and finds
/// nothing out of place at its top level.
pub proof fn lemma_well_formed_document_buildable(root: SpanModel)
    requires
        well_formed_document(root),
    ensures
        document_buildable(root),
        first_stray(root.children, root.children.len()) is None,
{
    let last = root.children.len() - 1;
    let elements = root.children.take(last);
    assert forall|i: int|
        #![trigger root.children[i]]
        0 <= i < root.children.len() && root.children[i].rule == Rule::Element implies buildable(
        root.children[i],
    ) by {
        assert(root.children[i] == elements[i]);
        lemma_well_formed_buildable(root.children[i]);
    }
    assert forall|i: int| 0 <= i < root.children.len() implies is_top_level(
        #[trigger] root.children[i].rule,
    ) by {
        if i < last {
            assert(root.children[i] == elements[i]);
        }
    }
    lemma_no_stray(root.children, root.children.len());
}

/// Where every span may stand at the top level, none is out of place.
pub proof fn lemma_no_stray(spans: Seq<SpanModel>, n: nat)
    requires
        n <= spans.len(),
        forall|i: int| 0 <= i < spans.len() ==> is_top_level(#[trigger] spans[i].rule),
    ensures
        first_stray(spans, n) is None,
    decreases n,
{
    if n > 0 {
        lemma_no_stray(spans, (n - 1) as nat);
    }
}

/// Whether `error` is a syntax error at a position of the input `s` or at its end.
pub open spec fn is_syntax_error_in(error: XmlParseError, s: Seq<char>) -> bool {
    error matches XmlParseError::SyntaxError { position, .. } && position <= s.len()
}

/// Where reading character data fails, it fails with a syntax error in the input.
pub proof fn lemma_data_error(s: Seq<char>, pos: int, stop: char)
    requires
        0 <= pos <= s.len() <= usize::MAX,
    ensures
        data(s, pos, stop) matches Err(error) ==> is_syntax_error_in(error, s),
    decreases s.len() - pos,
{
    if pos < s.len() && s[pos] != stop {
        if s[pos] == '&' {
            match entity_at(s, pos) {
                Some((_, n)) => {
                    lemma_data_error(s, pos + n, stop);
                },
                None => {},
            }
        } else {
            lemma_data_error(s, pos + 1, stop);
        }
    }
}

/// Where an attribute fails, it fails with a syntax error in the input.
pub proof fn lemma_attribute_error(s: Seq<char>, pos: int)
    requires
        0 <= pos < s.len() <= usize::MAX,
    ensures
        attribute(s, pos) matches Err(error) ==> is_syntax_error_in(error, s),
{
    lemma_name_end_advances(s, pos);
    let equals = ws_end(s, name_end(s, pos));
    lemma_ws_end_advances(s, name_end(s, pos));
    if at(s, equals, '=') {
        let quote = ws_end(s, equals + 1);
        lemma_ws_end_advances(s, equals + 1);
        if at(s, quote, '"') {
            lemma_data_error(s, quote + 1, '"');
            lemma_data_advances(s, quote + 1, '"');
        }
    }
}

/// Where the attributes of a start tag fail, they fail with a syntax error in the input.
pub proof fn lemma_attributes_error(s: Seq<char>, pos: int)
    requires
        0 <= pos <= s.len() <= usize::MAX,
    ensures
        attributes(s, pos) matches Err(error) ==> is_syntax_error_in(error, s),
    decreases s.len() - pos,
{
    lemma_ws_end_advances(s, pos);
    let p = ws_end(s, pos);
    if !at(s, p, '>') && 0 <= p < s.len() && is_name_start(s[p]) {
        lemma_attribute_error(s, p);
        lemma_attribute_advances(s, p);
        match attribute(s, p) {
            Ok((_, next)) => {
                lemma_attributes_error(s, next);
            },
            Err(_) => {},
        }
    }
}

/// Where an element fails, it fails with a syntax error in the input.
pub proof fn lemma_element_error(s: Seq<char>, pos: int)
    requires
        0 <= pos < s.len() <= usize::MAX,
    ensures
        element(s, pos) matches Err(error) ==> is_syntax_error_in(error, s),
    decreases s.len() - pos, 0nat,
{
    if 0 <= pos + 1 < s.len() && is_name_start(s[pos + 1]) {
        lemma_name_end_advances(s, pos + 1);
        lemma_attributes_error(s, name_end(s, pos + 1));
    }
    crate::grammar::lemma_start_tag_advances(s, pos);
    match start_tag(s, pos) {
        Ok((_, after_open)) => {
            lemma_content_error(s, after_open);
            crate::grammar::lemma_content_advances(s, after_open);
            match content(s, after_open) {
                Ok((_, close_at)) => {
                    crate::grammar::lemma_end_tag_advances(s, close_at);
                    lemma_name_end_advances(s, close_at + 2);
                    lemma_ws_end_advances(s, name_end(s, close_at + 2));
                },
                Err(_) => {},
            }
        },
        Err(_) => {},
    }
}

/// Where the content of an element fails, it fails with a syntax error in the input.
pub proof fn lemma_content_error(s: Seq<char>, pos: int)
    requires
        0 <= pos <= s.len() <= usize::MAX,
    ensures
        content(s, pos) matches Err(error) ==> is_syntax_error_in(error, s),
    decreases s.len() - pos, 1nat,
{
    lemma_ws_end_advances(s, pos);
    let p = ws_end(s, pos);
    if 0 <= p < s.len() {
        if s[p] == '<' {
            if !at(s, p + 1, '/') {
                lemma_element_error(s, p);
                lemma_element_advances(s, p);
                match element(s, p) {
                    Ok((_, next)) => {
                        lemma_content_error(s, next);
                    },
                    Err(_) => {},
                }
            }
        } else {
            lemma_data_error(s, p, '<');
            lemma_data_advances(s, p, '<');
            match text(s, p) {
                Ok((_, next)) => {
                    lemma_content_error(s, next);
                },
                Err(_) => {},
            }
        }
    }
}

/// Where the top level fails, it fails with a syntax error in the input.
pub proof fn lemma_top_level_error(s: Seq<char>, pos: int)
    requires
        0 <= pos <= s.len() <= usize::MAX,
    ensures
        top_level(s, pos) matches Err(error) ==> is_syntax_error_in(error, s),
    decreases s.len() - pos,
{
    lemma_ws_end_advances(s, pos);
    let p = ws_end(s, pos);
    if 0 <= p < s.len() && s[p] == '<' {
        lemma_element_error(s, p);
        lemma_element_advances(s, p);
        match element(s, p) {
            Ok((_, next)) => {
                lemma_top_level_error(s, next);
            },
            Err(_) => {},
        }
    }
}

/// An input that does not match the grammar fails with a syntax error at one
/// of its positions or at its end.
pub proof fn lemma_document_error(s: Seq<char>)
    requires
        s.len() <= usize::MAX,
    ensures
        document(s) matches Err(error) ==> is_syntax_error_in(error, s),
{
    lemma_top_level_error(s, 0);
}

} // verus!
