use xml_parser::builder::{
    build_document, is_buildable, is_document_buildable, parse_attribute, parse_element,
};
use xml_parser::{Rule, Span, XmlParseError, XmlValue};

fn token(rule: Rule, content: &str) -> Span {
    Span::token(rule, 0, 0, content.to_string())
}

fn group(rule: Rule, children: Vec<Span>) -> Span {
    Span::group(rule, 0, 0, children)
}

fn attribute(key: &str, value: &str) -> Span {
    group(Rule::Attribute, vec![token(Rule::Key, key), token(Rule::Value, value)])
}

fn pair(key: &str, value: &str) -> (String, String) {
    (key.to_string(), value.to_string())
}

fn element(name: &str, attributes: Vec<(String, String)>, children: Vec<XmlValue>) -> XmlValue {
    XmlValue::Element { name: name.to_string(), attributes, children }
}

#[test]
fn token_and_group_fill_the_fields() {
    let leaf = Span::token(Rule::Text, 3, 7, "data".to_string());
    assert_eq!(
        leaf,
        Span { rule: Rule::Text, start: 3, end: 7, content: "data".to_string(), children: vec![] }
    );
    let outer = Span::group(Rule::Element, 1, 9, vec![leaf]);
    assert_eq!(outer.rule, Rule::Element);
    assert_eq!((outer.start, outer.end), (1, 9));
    assert_eq!(outer.content, "");
    assert_eq!(outer.children.len(), 1);
    assert_eq!(outer.children[0].content, "data");
}

#[test]
fn attribute_is_its_first_two_nested_matches() {
    assert_eq!(parse_attribute(&attribute("id", "10")), pair("id", "10"));
    let longer = group(
        Rule::Attribute,
        vec![token(Rule::Key, "k"), token(Rule::Value, "v"), token(Rule::Value, "w")],
    );
    assert_eq!(parse_attribute(&longer), pair("k", "v"));
}

#[test]
fn builds_an_element_from_its_start_tag() {
    let span = group(
        Rule::Element,
        vec![
            group(
                Rule::StartTag,
                vec![token(Rule::Name, "note"), attribute("id", "10"), attribute("lang", "en")],
            ),
            token(Rule::Text, " Tove "),
            group(Rule::Element, vec![group(Rule::StartTag, vec![token(Rule::Name, "n")]), token(Rule::Text, "42")]),
            group(Rule::EndTag, vec![token(Rule::Name, "note")]),
        ],
    );
    assert_eq!(
        parse_element(&span),
        element(
            "note",
            vec![pair("id", "10"), pair("lang", "en")],
            vec![XmlValue::String("Tove".to_string()), element("n", vec![], vec![XmlValue::Number(42)])],
        )
    );
}

#[test]
fn attributes_may_stand_beside_the_start_tag() {
    let span = group(
        Rule::Element,
        vec![
            attribute("a", "1"),
            group(Rule::StartTag, vec![attribute("b", "2"), token(Rule::Name, "e"), attribute("c", "3")]),
            attribute("d", "4"),
            attribute("a", "5"),
        ],
    );
    assert_eq!(
        parse_element(&span),
        element(
            "e",
            vec![pair("a", "1"), pair("b", "2"), pair("c", "3"), pair("d", "4"), pair("a", "5")],
            vec![],
        )
    );
}

#[test]
fn the_first_name_is_the_name() {
    let span = group(
        Rule::Element,
        vec![
            group(Rule::StartTag, vec![token(Rule::Name, "first"), token(Rule::Name, "second")]),
            group(Rule::StartTag, vec![token(Rule::Name, "third")]),
        ],
    );
    assert_eq!(parse_element(&span), element("first", vec![], vec![]));
}

#[test]
fn an_element_without_a_start_tag_has_no_name() {
    assert_eq!(parse_element(&group(Rule::Element, vec![])), element("", vec![], vec![]));
    let only_text = group(Rule::Element, vec![token(Rule::Name, "stray"), token(Rule::Text, "x")]);
    assert_eq!(
        parse_element(&only_text),
        element("", vec![], vec![XmlValue::String("x".to_string())])
    );
}

#[test]
fn other_rules_are_ignored() {
    let span = group(
        Rule::Element,
        vec![
            group(Rule::StartTag, vec![token(Rule::Name, "e"), token(Rule::Text, "in the tag")]),
            token(Rule::EndOfInput, ""),
            token(Rule::Key, "k"),
            token(Rule::Value, "v"),
            group(Rule::Document, vec![token(Rule::Text, "hidden")]),
            group(Rule::EndTag, vec![token(Rule::Name, "other")]),
        ],
    );
    assert_eq!(parse_element(&span), element("e", vec![], vec![]));
}

#[test]
fn children_keep_their_order() {
    let span = group(
        Rule::Element,
        vec![
            group(Rule::StartTag, vec![token(Rule::Name, "list")]),
            token(Rule::Text, "1"),
            token(Rule::Text, "b"),
            group(Rule::Element, vec![group(Rule::StartTag, vec![token(Rule::Name, "x")])]),
            token(Rule::Text, "-3"),
        ],
    );
    assert_eq!(
        parse_element(&span),
        element(
            "list",
            vec![],
            vec![
                XmlValue::Number(1),
                XmlValue::String("b".to_string()),
                element("x", vec![], vec![]),
                XmlValue::Number(-3),
            ],
        )
    );
}

#[test]
fn a_document_gives_one_value_for_each_element() {
    let root = group(
        Rule::Document,
        vec![
            group(Rule::Element, vec![group(Rule::StartTag, vec![token(Rule::Name, "a")])]),
            group(Rule::Element, vec![group(Rule::StartTag, vec![token(Rule::Name, "b")])]),
            token(Rule::EndOfInput, ""),
        ],
    );
    assert_eq!(
        build_document(&root),
        Ok(vec![element("a", vec![], vec![]), element("b", vec![], vec![])])
    );
    assert_eq!(build_document(&group(Rule::Document, vec![])), Ok(vec![]));
}

#[test]
fn a_root_that_is_no_document_is_malformed() {
    let root = Span::group(Rule::Element, 4, 9, vec![]);
    assert_eq!(build_document(&root), Err(XmlParseError::MalformedDocument { start: 4, end: 9 }));
}

#[test]
fn the_first_span_out_of_place_is_reported() {
    let root = group(
        Rule::Document,
        vec![
            group(Rule::Element, vec![group(Rule::StartTag, vec![token(Rule::Name, "a")])]),
            Span::token(Rule::Text, 7, 11, "text".to_string()),
            Span::token(Rule::Name, 12, 13, "n".to_string()),
            token(Rule::EndOfInput, ""),
        ],
    );
    let error = build_document(&root).unwrap_err();
    assert_eq!(error, XmlParseError::MalformedDocument { start: 7, end: 11 });
    assert_eq!(error.position(), 7);
    assert_eq!(error.message(), "expected an element at the top level");
}

#[test]
fn an_attribute_without_a_value_cannot_be_built() {
    let bare = group(Rule::Attribute, vec![token(Rule::Key, "k")]);
    assert!(!is_buildable(&group(Rule::Element, vec![bare])));
    let bare = group(Rule::Attribute, vec![]);
    assert!(!is_buildable(&group(Rule::Element, vec![group(Rule::StartTag, vec![bare])])));
    let bare = group(Rule::Attribute, vec![token(Rule::Key, "k")]);
    let inner = group(Rule::Element, vec![group(Rule::StartTag, vec![token(Rule::Name, "i"), bare])]);
    let outer = group(Rule::Element, vec![group(Rule::StartTag, vec![token(Rule::Name, "o")]), inner]);
    assert!(!is_buildable(&outer));
    assert!(!is_document_buildable(&group(Rule::Document, vec![outer])));
}

#[test]
fn attributes_out_of_reach_do_not_matter() {
    let bare = group(Rule::Attribute, vec![]);
    let span = group(
        Rule::Element,
        vec![
            group(Rule::StartTag, vec![token(Rule::Name, "e")]),
            group(Rule::EndTag, vec![bare]),
        ],
    );
    assert!(is_buildable(&span));
    assert_eq!(parse_element(&span), element("e", vec![], vec![]));
    let bare = group(Rule::Attribute, vec![]);
    let root = group(Rule::Document, vec![bare, group(Rule::Element, vec![])]);
    assert!(is_document_buildable(&root));
    assert_eq!(build_document(&root), Err(XmlParseError::MalformedDocument { start: 0, end: 0 }));
}

#[test]
fn what_the_grammar_gives_can_be_built() {
    let root = xml_parser::engine::parse_document(r#"<a x="1"><b y="2" z="3">t</b></a>"#)
        .expect("the document parses");
    assert!(is_document_buildable(&root));
    assert!(is_buildable(&root.children[0]));
    assert_eq!(
        parse_element(&root.children[0]),
        element(
            "a",
            vec![pair("x", "1")],
            vec![element("b", vec![pair("y", "2"), pair("z", "3")], vec![XmlValue::String("t".to_string())])],
        )
    );
}
