//! The tree builder: from a tree of rule-tagged spans to the typed value tree.

use vstd::prelude::*;
use crate::error::XmlParseError;
use crate::leaf::{classify, classify_leaf};
use crate::span::{lemma_span_children, spans_view, Rule, Span, SpanModel};
use crate::value::{attributes_view, lemma_element_view, values_view, Node, XmlValue};

verus! {

/// The key and the value of an attribute span: the character data of its first
/// and of its second nested match.
pub open spec fn attribute_of(span: SpanModel) -> (Seq<char>, Seq<char>)
    recommends
        span.children.len() >= 2,
{
    (span.children[0].content, span.children[1].content)
}

/// The attributes that the attribute spans among the first `n` of `spans` hold, in order.
pub open spec fn attributes_among(spans: Seq<SpanModel>, n: nat) -> Seq<(Seq<char>, Seq<char>)>
    decreases n,
{
    if n == 0 || n > spans.len() {
        Seq::empty()
    } else {
        let before = attributes_among(spans, (n - 1) as nat);
        let span = spans[n - 1];
        if span.rule == Rule::Attribute {
            before.push(attribute_of(span))
        } else {
            before
        }
    }
}

/// The character data of the first name span among the first `n` of `spans`.
pub open spec fn name_among(spans: Seq<SpanModel>, n: nat) -> Option<Seq<char>>
    decreases n,
{
    if n == 0 || n > spans.len() {
        None
    } else {
        match name_among(spans, (n - 1) as nat) {
            Some(name) => Some(name),
            None => if spans[n - 1].rule == Rule::Name {
                Some(spans[n - 1].content)
            } else {
                None
            },
        }
    }
}

/// The name that the start tags among the first `n` of `spans` give an element:
/// that of the first name span nested in one of them.
pub open spec fn element_name(spans: Seq<SpanModel>, n: nat) -> Option<Seq<char>>
    decreases n,
{
    if n == 0 || n > spans.len() {
        None
    } else {
        match element_name(spans, (n - 1) as nat) {
            Some(name) => Some(name),
            None => if spans[n - 1].rule == Rule::StartTag {
                name_among(spans[n - 1].children, spans[n - 1].children.len())
            } else {
                None
            },
        }
    }
}

/// The attributes that the first `n` of `spans` give an element: those nested in
/// a start tag and those that stand among `spans` themselves, in source order.
pub open spec fn element_attributes(spans: Seq<SpanModel>, n: nat) -> Seq<(Seq<char>, Seq<char>)>
    decreases n,
{
    if n == 0 || n > spans.len() {
        Seq::empty()
    } else {
        let before = element_attributes(spans, (n - 1) as nat);
        let span = spans[n - 1];
        match span.rule {
            Rule::StartTag => before + attributes_among(span.children, span.children.len()),
            Rule::Attribute => before.push(attribute_of(span)),
            _ => before,
        }
    }
}

/// The children that the first `n` nested matches of `span` give an element: a
/// value for each nested element and a leaf for each text span, in document order.
pub open spec fn element_children(span: SpanModel, n: nat) -> Seq<Node>
    decreases span, n,
{
    if n == 0 || n > span.children.len() {
        Seq::empty()
    } else {
        let before = element_children(span, (n - 1) as nat);
        let child = span.children[n - 1];
        match child.rule {
            Rule::Element => before.push(element_of(child)),
            Rule::Text => before.push(classify(child.content)),
            _ => before,
        }
    }
}

/// The element that an element span stands for.
pub open spec fn element_of(span: SpanModel) -> Node
    decreases span, span.children.len() + 1,
{
    Node::Element {
        name: match element_name(span.children, span.children.len()) {
            Some(name) => name,
            None => Seq::empty(),
        },
        attributes: element_attributes(span.children, span.children.len()),
        children: element_children(span, span.children.len()),
    }
}

/// Whether `span`, if it is an attribute span, has a key and a value.
pub open spec fn attribute_complete(span: SpanModel) -> bool {
    span.rule == Rule::Attribute ==> span.children.len() >= 2
}

/// Whether every attribute span among `spans` has a key and a value.
pub open spec fn attributes_complete(spans: Seq<SpanModel>) -> bool {
    forall|i: int| 0 <= i < spans.len() ==> attribute_complete(#[trigger] spans[i])
}

/// Whether every attribute span that the element builder reads below `span` has
/// a key and a value: those among its nested matches, those in its start tags,
/// and those of its nested elements in turn.
pub open spec fn buildable(span: SpanModel) -> bool
    decreases span,
{
    &&& attributes_complete(span.children)
    &&& forall|i: int|
        #![trigger span.children[i]]
        0 <= i < span.children.len() ==> {
            &&& span.children[i].rule == Rule::StartTag ==> attributes_complete(
                span.children[i].children,
            )
            &&& span.children[i].rule == Rule::Element ==> buildable(span.children[i])
        }
}

/// Whether `rule` may stand at the top level of a document.
pub open spec fn is_top_level(rule: Rule) -> bool {
    rule == Rule::Element || rule == Rule::EndOfInput
}

/// The index of the first span among the first `n` of `spans` that may not
/// stand at the top level.
pub open spec fn first_stray(spans: Seq<SpanModel>, n: nat) -> Option<int>
    decreases n,
{
    if n == 0 || n > spans.len() {
        None
    } else {
        match first_stray(spans, (n - 1) as nat) {
            Some(i) => Some(i),
            None => if is_top_level(spans[n - 1].rule) {
                None
            } else {
                Some(n - 1)
            },
        }
    }
}

/// The error that reports `span` as out of place.
pub open spec fn malformed_at(span: SpanModel) -> XmlParseError {
    XmlParseError::MalformedDocument { start: span.start as usize, end: span.end as usize }
}

/// The values of a document: one element for each top-level element span, in
/// source order. A root that is no document span, or a top-level span that is
/// neither an element nor the end of the input, is reported: the first such.
pub open spec fn document_of(root: SpanModel) -> Result<Seq<Node>, XmlParseError> {
    if root.rule != Rule::Document {
        Err(malformed_at(root))
    } else {
        match first_stray(root.children, root.children.len()) {
            Some(i) => Err(malformed_at(root.children[i])),
            None => Ok(element_children(root, root.children.len())),
        }
    }
}

/// Whether the element builder can read every top-level element of `root`.
pub open spec fn document_buildable(root: SpanModel) -> bool {
    forall|i: int|
        #![trigger root.children[i]]
        0 <= i < root.children.len() && root.children[i].rule == Rule::Element ==> buildable(
            root.children[i],
        )
}

/// The number of element spans among the first `n` of `spans`.
pub open spec fn elements_among(spans: Seq<SpanModel>, n: nat) -> nat
    decreases n,
{
    if n == 0 || n > spans.len() {
        0
    } else if spans[n - 1].rule == Rule::Element {
        elements_among(spans, (n - 1) as nat) + 1
    } else {
        elements_among(spans, (n - 1) as nat)
    }
}

/// While nothing is out of place at the top level, the first `n` top-level
/// spans give one element for each element span among them.
pub proof fn lemma_top_level_values(root: SpanModel, n: nat)
    requires
        n <= root.children.len(),
        first_stray(root.children, n) is None,
    ensures
        element_children(root, n).len() == elements_among(root.children, n),
        forall|i: int|
            0 <= i < element_children(root, n).len() ==> #[trigger] element_children(root, n)[i]
                is Element,
    decreases n,
{
    if n > 0 {
        lemma_top_level_values(root, (n - 1) as nat);
        let before = element_children(root, (n - 1) as nat);
        let child = root.children[n - 1];
        if child.rule == Rule::Element {
            assert(element_children(root, n) == before.push(element_of(child)));
        }
    }
}

/// A document that is built has one value for each top-level element span, and
/// each value is an element.
pub proof fn lemma_document_values(root: SpanModel)
    ensures
        document_of(root) matches Ok(values) ==> {
            &&& values.len() == elements_among(root.children, root.children.len())
            &&& forall|i: int| 0 <= i < values.len() ==> #[trigger] values[i] is Element
        },
{
    if root.rule == Rule::Document && first_stray(root.children, root.children.len()) is None {
        lemma_top_level_values(root, root.children.len());
    }
}

/// Once a span is found out of place, it stays the first one.
pub proof fn lemma_first_stray_stays(spans: Seq<SpanModel>, n: nat, m: nat)
    requires
        n <= m <= spans.len(),
        first_stray(spans, n) is Some,
    ensures
        first_stray(spans, m) == first_stray(spans, n),
    decreases m,
{
    if n < m {
        lemma_first_stray_stays(spans, n, (m - 1) as nat);
    }
}

/// Decides whether every attribute span among `spans` has a key and a value.
fn has_complete_attributes(spans: &Vec<Span>) -> (complete: bool)
    ensures
        complete == attributes_complete(spans_view(spans@)),
{
    let mut i: usize = 0;
    while i < spans.len()
        invariant
            i <= spans.len(),
            forall|k: int| 0 <= k < i ==> attribute_complete(#[trigger] spans_view(spans@)[k]),
        decreases spans.len() - i,
    {
        let span = &spans[i];
        proof {
            lemma_span_children(span);
        }
        if span.rule == Rule::Attribute && span.children.len() < 2 {
            assert(!attribute_complete(spans_view(spans@)[i as int]));
            return false;
        }
        i += 1;
    }
    true
}

/// Decides [`buildable`]: whether the element builder can read `span`.
pub fn is_buildable(span: &Span) -> (able: bool)
    ensures
        able == buildable(span@),
    decreases span,
{
    proof {
        lemma_span_children(span);
    }
    if !has_complete_attributes(&span.children) {
        return false;
    }
    let mut i: usize = 0;
    while i < span.children.len()
        invariant
            i <= span.children.len(),
            span@.children == spans_view(span.children@),
            attributes_complete(span@.children),
            forall|k: int|
                #![trigger span@.children[k]]
                0 <= k < i ==> {
                    &&& span@.children[k].rule == Rule::StartTag ==> attributes_complete(
                        span@.children[k].children,
                    )
                    &&& span@.children[k].rule == Rule::Element ==> buildable(span@.children[k])
                },
        decreases span.children.len() - i,
    {
        let child = &span.children[i];
        proof {
            lemma_span_children(child);
            assert(span@.children[i as int] == child@);
        }
        let able = match child.rule {
            Rule::StartTag => has_complete_attributes(&child.children),
            Rule::Element => is_buildable(child),
            _ => true,
        };
        if !able {
            return false;
        }
        i += 1;
    }
    true
}

/// Decides [`document_buildable`]: whether the element builder can read every
/// top-level element of `root`.
pub fn is_document_buildable(root: &Span) -> (able: bool)
    ensures
        able == document_buildable(root@),
{
    proof {
        lemma_span_children(root);
    }
    let mut i: usize = 0;
    while i < root.children.len()
        invariant
            i <= root.children.len(),
            root@.children == spans_view(root.children@),
            forall|k: int|
                #![trigger root@.children[k]]
                0 <= k < i && root@.children[k].rule == Rule::Element ==> buildable(
                    root@.children[k],
                ),
        decreases root.children.len() - i,
    {
        let child = &root.children[i];
        assert(root@.children[i as int] == child@);
        if child.rule == Rule::Element && !is_buildable(child) {
            return false;
        }
        i += 1;
    }
    true
}

/// Reads the key and the value of an attribute span.
pub fn parse_attribute(span: &Span) -> (pair: (String, String))
    requires
        span@.children.len() >= 2,
    ensures
        (pair.0@, pair.1@) == attribute_of(span@),
{
    proof {
        lemma_span_children(span);
    }
    (span.children[0].content.clone(), span.children[1].content.clone())
}

/// Reads the name and the attributes that a start tag span holds.
fn start_tag_parts(tag: &Span) -> (parts: (Option<String>, Vec<(String, String)>))
    requires
        attributes_complete(tag@.children),
    ensures
        match parts.0 {
            Some(name) => name_among(tag@.children, tag@.children.len()) == Some(name@),
            None => name_among(tag@.children, tag@.children.len()) is None,
        },
        attributes_view(parts.1@) == attributes_among(tag@.children, tag@.children.len()),
{
    let mut name: Option<String> = None;
    let mut attributes: Vec<(String, String)> = Vec::new();
    let mut i: usize = 0;
    proof {
        lemma_span_children(tag);
    }
    while i < tag.children.len()
        invariant
            i <= tag.children.len(),
            tag@.children.len() == tag.children.len(),
            forall|k: int| 0 <= k < tag.children.len() ==> tag@.children[k] == #[trigger] tag.children[k]@,
            attributes_complete(tag@.children),
            match name {
                Some(found) => name_among(tag@.children, i as nat) == Some(found@),
                None => name_among(tag@.children, i as nat) is None,
            },
            attributes_view(attributes@) == attributes_among(tag@.children, i as nat),
        decreases tag.children.len() - i,
    {
        let inner = &tag.children[i];
        assert(tag@.children[i as int] == inner@);
        if inner.rule == Rule::Name && name.is_none() {
            name = Some(inner.content.clone());
        }
        if inner.rule == Rule::Attribute {
            let pair = parse_attribute(inner);
            attributes.push(pair);
        }
        i += 1;
    }
    (name, attributes)
}

/// Builds the element that an element span stands for.
pub fn parse_element(span: &Span) -> (value: XmlValue)
    requires
        buildable(span@),
    ensures
        value@ == element_of(span@),
    decreases span,
{
    let mut name: Option<String> = None;
    let mut attributes: Vec<(String, String)> = Vec::new();
    let mut children: Vec<XmlValue> = Vec::new();
    let mut i: usize = 0;
    proof {
        lemma_span_children(span);
    }
    while i < span.children.len()
        invariant
            i <= span.children.len(),
            span@.children.len() == span.children.len(),
            forall|k: int| 0 <= k < span.children.len() ==> span@.children[k] == #[trigger] span.children[k]@,
            buildable(span@),
            match name {
                Some(found) => element_name(span@.children, i as nat) == Some(found@),
                None => element_name(span@.children, i as nat) is None,
            },
            attributes_view(attributes@) == element_attributes(span@.children, i as nat),
            values_view(children@) == element_children(span@, i as nat),
        decreases span.children.len() - i,
    {
        let child = &span.children[i];
        assert(span@.children[i as int] == child@);
        match child.rule {
            Rule::StartTag => {
                let (tag_name, mut tag_attributes) = start_tag_parts(child);
                if name.is_none() {
                    name = tag_name;
                }
                let ghost before = attributes@;
                let ghost added = tag_attributes@;
                attributes.append(&mut tag_attributes);
                assert(attributes_view(attributes@) =~= attributes_view(before) + attributes_view(
                    added,
                ));
            },
            Rule::Attribute => {
                let pair = parse_attribute(child);
                let ghost before = attributes@;
                attributes.push(pair);
                assert(attributes_view(attributes@) =~= attributes_view(before).push(
                    (pair.0@, pair.1@),
                ));
            },
            Rule::Element => {
                let nested = parse_element(child);
                children.push(nested);
            },
            Rule::Text => {
                let leaf = classify_leaf(child.content.as_str());
                children.push(leaf);
            },
            _ => {},
        }
        i += 1;
    }
    let name = match name {
        Some(found) => found,
        None => String::new(),
    };
    proof {
        lemma_element_view(name, attributes, children);
    }
    XmlValue::Element { name, attributes, children }
}

/// Builds the values of a document from its root span.
pub fn build_document(root: &Span) -> (result: Result<Vec<XmlValue>, XmlParseError>)
    requires
        document_buildable(root@),
    ensures
        match result {
            Ok(values) => document_of(root@) == Ok::<Seq<Node>, XmlParseError>(values_view(values@)),
            Err(error) => document_of(root@) == Err::<Seq<Node>, XmlParseError>(error),
        },
{
    if root.rule != Rule::Document {
        return Err(XmlParseError::MalformedDocument { start: root.start, end: root.end });
    }
    let mut values: Vec<XmlValue> = Vec::new();
    let mut i: usize = 0;
    proof {
        lemma_span_children(root);
    }
    while i < root.children.len()
        invariant
            i <= root.children.len(),
            root@.children.len() == root.children.len(),
            forall|k: int| 0 <= k < root.children.len() ==> root@.children[k] == #[trigger] root.children[k]@,
            document_buildable(root@),
            root@.rule == Rule::Document,
            first_stray(root@.children, i as nat) is None,
            values_view(values@) == element_children(root@, i as nat),
        decreases root.children.len() - i,
    {
        let child = &root.children[i];
        assert(root@.children[i as int] == child@);
        match child.rule {
            Rule::Element => {
                let element = parse_element(child);
                values.push(element);
            },
            Rule::EndOfInput => {},
            _ => {
                proof {
                    lemma_first_stray_stays(root@.children, (i + 1) as nat, root@.children.len());
                }
                return Err(XmlParseError::MalformedDocument { start: child.start, end: child.end });
            },
        }
        i += 1;
    }
    Ok(values)
}

} // verus!
