//! What holds of every value of a parsed document.

use vstd::prelude::*;
use crate::builder::{
    attribute_of, attributes_among, element_attributes, element_children, element_name,
    element_of, name_among,
};
use crate::chars::is_whitespace;
use crate::leaf::{classify, i32_value, lemma_trimmed_idempotent, trimmed};
use crate::parse::{lemma_parsed, parsed};
use crate::grammar::document;
use crate::scan::{lemma_ws_end_unique, lemma_ws_start, ws_start};
use crate::shape::{
    is_name, lemma_document_shape, well_formed_attribute, well_formed_element, well_formed_text,
};
use crate::span::{Rule, SpanModel};
use crate::value::Node;

verus! {

/// Whether `node` is a value as a parsed document holds it: an element has a
/// name and names for the keys of its attributes; a string is not empty, has no
/// whitespace at its ends and is no integer; a number is a signed 32-bit integer.
pub open spec fn well_formed_node(node: Node) -> bool
    decreases node,
{
    match node {
        Node::Element { name, attributes, children } => {
            &&& is_name(name)
            &&& forall|i: int| #![trigger attributes[i]] 0 <= i < attributes.len() ==> is_name(attributes[i].0)
            &&& forall|i: int|
                #![trigger children[i]]
                0 <= i < children.len() ==> well_formed_node(children[i])
        },
        Node::Text(text) => text.len() > 0 && trimmed(text) == text && i32_value(text) is None,
        Node::Number(n) => i32::MIN <= n <= i32::MAX,
    }
}

/// The value that a nested element or text span stands for.
pub open spec fn node_of(span: SpanModel) -> Node {
    if span.rule == Rule::Element {
        element_of(span)
    } else {
        classify(span.content)
    }
}

/// Character data that begins with no whitespace gives a well-formed leaf.
pub proof fn lemma_classify_well_formed(raw: Seq<char>)
    requires
        raw.len() > 0,
        !is_whitespace(raw[0]),
    ensures
        well_formed_node(classify(raw)),
{
    lemma_ws_end_unique(raw, 0, 0);
    lemma_ws_start(raw, raw.len() as int);
    lemma_trimmed_idempotent(raw);
}

/// In a start tag of the grammar's shape, the name is that of its first nested match.
proof fn lemma_name_among(tag: SpanModel, n: nat)
    requires
        tag.children.len() >= 1,
        tag.children[0].rule == Rule::Name,
        1 <= n <= tag.children.len(),
    ensures
        name_among(tag.children, n) == Some(tag.children[0].content),
    decreases n,
{
    if n > 1 {
        lemma_name_among(tag, (n - 1) as nat);
    } else {
        assert(name_among(tag.children, 0) is None);
    }
}

/// In a start tag of the grammar's shape, each nested match after the name
/// gives one attribute.
proof fn lemma_attributes_among(tag: SpanModel, n: nat)
    requires
        tag.children.len() >= 1,
        tag.children[0].rule == Rule::Name,
        forall|i: int|
            #![trigger tag.children[i]]
            1 <= i < tag.children.len() ==> well_formed_attribute(tag.children[i]),
        1 <= n <= tag.children.len(),
    ensures
        attributes_among(tag.children, n).len() == n - 1,
        forall|i: int|
            0 <= i < n - 1 ==> #[trigger] attributes_among(tag.children, n)[i] == attribute_of(
                tag.children[i + 1],
            ),
    decreases n,
{
    if n > 1 {
        lemma_attributes_among(tag, (n - 1) as nat);
    } else {
        assert(attributes_among(tag.children, 0).len() == 0);
    }
}

/// In an element of the grammar's shape, the name is that of the start tag.
proof fn lemma_element_name(span: SpanModel, n: nat)
    requires
        well_formed_element(span),
        1 <= n <= span.children.len(),
    ensures
        element_name(span.children, n) == Some(span.children[0].children[0].content),
    decreases n,
{
    if n > 1 {
        lemma_element_name(span, (n - 1) as nat);
    } else {
        assert(element_name(span.children, 0) is None);
        lemma_name_among(span.children[0], span.children[0].children.len());
    }
}

/// In an element of the grammar's shape, the attributes are those of the start tag.
proof fn lemma_element_attributes(span: SpanModel, n: nat)
    requires
        well_formed_element(span),
        1 <= n <= span.children.len(),
    ensures
        element_attributes(span.children, n) == attributes_among(
            span.children[0].children,
            span.children[0].children.len(),
        ),
    decreases n,
{
    if n > 1 {
        lemma_element_attributes(span, (n - 1) as nat);
    } else {
        assert(element_attributes(span.children, 0) =~= Seq::empty());
    }
}

/// In an element of the grammar's shape, each nested match between the tags
/// gives one child.
proof fn lemma_element_children(span: SpanModel, n: nat)
    requires
        well_formed_element(span),
        1 <= n <= span.children.len(),
    ensures
        element_children(span, n).len() == if n == span.children.len() {
            n - 2
        } else {
            n - 1
        },
        forall|i: int|
            0 <= i < element_children(span, n).len() ==> #[trigger] element_children(span, n)[i]
                == node_of(span.children[i + 1]),
    decreases n,
{
    if n > 1 {
        lemma_element_children(span, (n - 1) as nat);
    } else {
        assert(element_children(span, 0).len() == 0);
    }
}

/// The element that an element span of the grammar's shape stands for: its name
/// is the name of the start tag, its attributes are those of the start tag's
/// attribute spans, and its children are the values of the spans between the
/// two tags, each in source order.
pub proof fn lemma_element_read(span: SpanModel)
    requires
        well_formed_element(span),
    ensures
        element_of(span) matches Node::Element { name, attributes, children } && {
            let tag = span.children[0];
            &&& name == tag.children[0].content
            &&& attributes.len() == tag.children.len() - 1
            &&& forall|i: int|
                0 <= i < attributes.len() ==> #[trigger] attributes[i] == attribute_of(
                    tag.children[i + 1],
                )
            &&& children.len() == span.children.len() - 2
            &&& forall|i: int|
                0 <= i < children.len() ==> #[trigger] children[i] == node_of(span.children[i + 1])
        },
{
    let tag = span.children[0];
    lemma_element_name(span, span.children.len());
    lemma_element_attributes(span, span.children.len());
    lemma_attributes_among(tag, tag.children.len());
    lemma_element_children(span, span.children.len());
}

/// An element span of the grammar's shape stands for a well-formed value.
pub proof fn lemma_element_well_formed(span: SpanModel)
    requires
        well_formed_element(span),
    ensures
        well_formed_node(element_of(span)),
    decreases span,
{
    lemma_element_read(span);
    match element_of(span) {
        Node::Element { name, attributes, children } => {
            assert forall|i: int| #![trigger children[i]] 0 <= i < children.len() implies well_formed_node(
                children[i],
            ) by {
                let child = span.children[i + 1];
                if child.rule == Rule::Element {
                    lemma_element_well_formed(child);
                } else {
                    lemma_classify_well_formed(child.content);
                }
            }
        },
        _ => {},
    }
}

/// Every value of a parsed document is well formed.
pub proof fn lemma_parsed_well_formed(s: Seq<char>)
    ensures
        parsed(s) matches Ok(values) ==> forall|i: int|
            0 <= i < values.len() ==> well_formed_node(#[trigger] values[i]),
{
    lemma_parsed(s);
    lemma_document_shape(s);
    match document(s) {
        Ok(root) => {
            let values = parsed(s)->Ok_0;
            assert forall|i: int| 0 <= i < values.len() implies well_formed_node(
                #[trigger] values[i],
            ) by {
                let elements = root.children.take(root.children.len() - 1);
                assert(root.children[i] == elements[i]);
                lemma_element_well_formed(root.children[i]);
            }
        },
        Err(_) => {},
    }
}

} // verus!
