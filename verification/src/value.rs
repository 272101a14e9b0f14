//! The typed value tree and its mathematical model.

use vstd::prelude::*;

verus! {

/// A node of the typed value tree.
#[derive(Debug, PartialEq)]
pub enum XmlValue {
    /// An element with its attributes in source order and its children in document order.
    Element { name: String, attributes: Vec<(String, String)>, children: Vec<XmlValue> },
    /// Trimmed character data that is not an integer.
    String(String),
    /// Character data that reads as a signed 32-bit integer.
    Number(i32),
}

/// The mathematical model of an [`XmlValue`].
pub enum Node {
    Element { name: Seq<char>, attributes: Seq<(Seq<char>, Seq<char>)>, children: Seq<Node> },
    Text(Seq<char>),
    Number(int),
}

/// The model of a list of attributes: each key and value as a sequence of characters.
pub open spec fn attributes_view(attributes: Seq<(String, String)>) -> Seq<(Seq<char>, Seq<char>)> {
    Seq::new(attributes.len(), |i: int| (attributes[i].0@, attributes[i].1@))
}

/// The models of a list of values, in the same order.
pub open spec fn values_view(values: Seq<XmlValue>) -> Seq<Node> {
    Seq::new(values.len(), |i: int| values[i]@)
}

impl View for XmlValue {
    type V = Node;

    open spec fn view(&self) -> Node
        decreases self,
    {
        match self {
            XmlValue::Element { name, attributes, children } => Node::Element {
                name: name@,
                attributes: attributes_view(attributes@),
                children: Seq::new(
                    children.len() as nat,
                    |i: int|
                        if 0 <= i < children.len() {
                            children[i]@
                        } else {
                            Node::Number(0)
                        },
                ),
            },
            XmlValue::String(text) => Node::Text(text@),
            XmlValue::Number(n) => Node::Number(*n as int),
        }
    }
}

/// The children of an element's model are the models of its children.
pub proof fn lemma_element_view(name: String, attributes: Vec<(String, String)>, children: Vec<XmlValue>)
    ensures
        (XmlValue::Element { name, attributes, children })@ == (Node::Element {
            name: name@,
            attributes: attributes_view(attributes@),
            children: values_view(children@),
        }),
{
    let v = XmlValue::Element { name, attributes, children };
    assert(v@->children =~= values_view(children@));
}

} // verus!
