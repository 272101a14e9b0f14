//! Parsing a document: the grammar gives the tree of spans, and the tree builder
//! gives the values.

use vstd::prelude::*;
use crate::builder::{
    build_document, document_of, element_children, element_of, elements_among,
};
use crate::error::XmlParseError;
use crate::grammar::document;
use crate::engine::parse_document;
use crate::invariants::{lemma_parsed_well_formed, well_formed_node};
use crate::shape::{
    is_syntax_error_in, lemma_document_error, lemma_document_shape,
    lemma_well_formed_document_buildable, well_formed_document, well_formed_element,
};
use crate::span::SpanModel;
use crate::tree::{document_tree, lemma_document_exists};
use crate::value::{values_view, Node, XmlValue};

verus! {

/// The values of the document `s`, or why it has none.
pub open spec fn parsed(s: Seq<char>) -> Result<Seq<Node>, XmlParseError> {
    match document(s) {
        Ok(root) => document_of(root),
        Err(error) => Err(error),
    }
}

/// The number of elements at the top level of the document `s`, where `s`
/// matches the grammar.
pub open spec fn top_level_elements(s: Seq<char>) -> Option<nat> {
    match document(s) {
        Ok(root) => Some(elements_among(root.children, root.children.len())),
        Err(_) => None,
    }
}

/// Among the first `n` spans of a document of the grammar's shape, all but the
/// end of the input are elements.
proof fn lemma_elements_among_document(root: SpanModel, n: nat)
    requires
        well_formed_document(root),
        n <= root.children.len(),
    ensures
        elements_among(root.children, n) == if n == root.children.len() {
            n - 1
        } else {
            n as int
        },
    decreases n,
{
    if n > 0 {
        lemma_elements_among_document(root, (n - 1) as nat);
        if n < root.children.len() {
            let elements = root.children.take(root.children.len() - 1);
            assert(well_formed_element(elements[n - 1]));
        }
    }
}

/// The first `n` top-level spans of a document of the grammar's shape give the
/// elements that they stand for.
proof fn lemma_element_children_document(root: SpanModel, n: nat)
    requires
        well_formed_document(root),
        n < root.children.len(),
    ensures
        element_children(root, n).len() == n,
        forall|i: int|
            0 <= i < n ==> #[trigger] element_children(root, n)[i] == element_of(root.children[i]),
    decreases n,
{
    if n > 0 {
        lemma_element_children_document(root, (n - 1) as nat);
        let elements = root.children.take(root.children.len() - 1);
        assert(well_formed_element(elements[n - 1]));
    }
}

/// An input that matches the grammar has one value for each of its top-level
/// elements, in source order: the element that the span stands for. An input
/// that does not match it has none, and the error is the grammar's.
pub proof fn lemma_parsed(s: Seq<char>)
    ensures
        match document(s) {
            Ok(root) => {
                &&& parsed(s) matches Ok(values)
                &&& root.children.len() == values.len() + 1
                &&& top_level_elements(s) == Some(values.len())
                &&& forall|i: int|
                    0 <= i < values.len() ==> #[trigger] values[i] == element_of(root.children[i])
            },
            Err(error) => parsed(s) == Err::<Seq<Node>, XmlParseError>(error),
        },
{
    lemma_document_shape(s);
    match document(s) {
        Ok(root) => {
            lemma_well_formed_document_buildable(root);
            let n = root.children.len();
            lemma_elements_among_document(root, n);
            lemma_element_children_document(root, (n - 1) as nat);
        },
        Err(_) => {},
    }
}

/// Parses `xml` into its top-level values.
///
/// Succeeds exactly on the inputs that have a parse tree, with one element for
/// each top-level element of the input, in source order. On any other input it
/// returns the grammar's syntax error and no values.
pub fn parse_xml(xml: &str) -> (result: Result<Vec<XmlValue>, XmlParseError>)
    ensures
        match result {
            Ok(values) => parsed(xml@) == Ok::<Seq<Node>, XmlParseError>(values_view(values@)),
            Err(error) => parsed(xml@) == Err::<Seq<Node>, XmlParseError>(error),
        },
        result is Ok <==> document(xml@) is Ok,
        result is Ok <==> exists|root: SpanModel| document_tree(xml@, root),
        result matches Ok(values) ==> {
            &&& top_level_elements(xml@) == Some(values@.len())
            &&& forall|i: int| 0 <= i < values@.len() ==> #[trigger] values@[i] is Element
            &&& forall|i: int| 0 <= i < values@.len() ==> well_formed_node(#[trigger] values@[i]@)
        },
        result matches Err(error) ==> is_syntax_error_in(error, xml@),
{
    proof {
        lemma_parsed(xml@);
        lemma_parsed_well_formed(xml@);
        lemma_document_exists(xml@);
    }
    match parse_document(xml) {
        Err(error) => {
            proof {
                lemma_document_error(xml@);
            }
            Err(error)
        },
        Ok(root) => {
            proof {
                lemma_document_shape(xml@);
                lemma_well_formed_document_buildable(root@);
            }
            let result = build_document(&root);
            proof {
                match &result {
                    Ok(values) => {
                        assert forall|i: int| 0 <= i < values@.len() implies #[trigger] values@[i]
                            is Element by {
                            assert(values_view(values@)[i] == element_of(root@.children[i]));
                        }
                        assert forall|i: int| 0 <= i < values@.len() implies well_formed_node(
                            #[trigger] values@[i]@,
                        ) by {
                            assert(values_view(values@)[i] == values@[i]@);
                        }
                    },
                    Err(_) => {},
                }
            }
            result
        },
    }
}

} // verus!
