use xml_parser::engine::parse_document;
use xml_parser::{parse_xml, Rule, Span, SyntaxFault, XmlParseError, XmlValue};

fn token(rule: Rule, start: usize, end: usize, content: &str) -> Span {
    Span { rule, start, end, content: content.to_string(), children: vec![] }
}

fn group(rule: Rule, start: usize, end: usize, children: Vec<Span>) -> Span {
    Span { rule, start, end, content: String::new(), children }
}

fn pair(key: &str, value: &str) -> (String, String) {
    (key.to_string(), value.to_string())
}

fn element(name: &str, attributes: Vec<(String, String)>, children: Vec<XmlValue>) -> XmlValue {
    XmlValue::Element { name: name.to_string(), attributes, children }
}

fn text(s: &str) -> XmlValue {
    XmlValue::String(s.to_string())
}

fn fault(xml: &str) -> (SyntaxFault, usize) {
    match parse_xml(xml) {
        Err(XmlParseError::SyntaxError { fault, position }) => (fault, position),
        other => panic!("{xml:?} gave {other:?}"),
    }
}

#[test]
fn the_span_tree_of_a_small_document() {
    let root = parse_document(r#"<a k="v">t</a>"#).expect("the document parses");
    let expected = group(
        Rule::Document,
        0,
        14,
        vec![
            group(
                Rule::Element,
                0,
                14,
                vec![
                    group(
                        Rule::StartTag,
                        0,
                        9,
                        vec![
                            token(Rule::Name, 1, 2, "a"),
                            group(
                                Rule::Attribute,
                                3,
                                8,
                                vec![token(Rule::Key, 3, 4, "k"), token(Rule::Value, 6, 7, "v")],
                            ),
                        ],
                    ),
                    token(Rule::Text, 9, 10, "t"),
                    group(Rule::EndTag, 10, 14, vec![token(Rule::Name, 12, 13, "a")]),
                ],
            ),
            token(Rule::EndOfInput, 14, 14, ""),
        ],
    );
    assert_eq!(root, expected);
}

#[test]
fn positions_count_characters() {
    let root = parse_document("<é>ö</é>");
    assert_eq!(
        root,
        Err(XmlParseError::SyntaxError { fault: SyntaxFault::ExpectedName, position: 1 })
    );
    let root = parse_document("<a>ö€</a> <b></b>").expect("the document parses");
    assert_eq!(root.children.len(), 3);
    assert_eq!((root.children[0].start, root.children[0].end), (0, 9));
    assert_eq!(root.children[0].children[1], token(Rule::Text, 3, 5, "ö€"));
    assert_eq!((root.children[1].start, root.children[1].end), (10, 17));
    assert_eq!(root.children[2], token(Rule::EndOfInput, 17, 17, ""));
    assert_eq!((root.start, root.end), (0, 17));
}

#[test]
fn an_empty_document_has_no_values() {
    assert_eq!(parse_xml(""), Ok(vec![]));
    assert_eq!(parse_xml(" \n\t "), Ok(vec![]));
    assert_eq!(parse_document(""), Ok(group(Rule::Document, 0, 0, vec![token(Rule::EndOfInput, 0, 0, "")])));
}

#[test]
fn several_top_level_elements() {
    assert_eq!(
        parse_xml("<a></a>\n<b>1</b> <c></c>"),
        Ok(vec![
            element("a", vec![], vec![]),
            element("b", vec![], vec![XmlValue::Number(1)]),
            element("c", vec![], vec![]),
        ])
    );
}

#[test]
fn attributes_keep_their_order() {
    assert_eq!(
        parse_xml(r#"<note id="10" lang="en">...</note>"#),
        Ok(vec![element("note", vec![pair("id", "10"), pair("lang", "en")], vec![text("...")])])
    );
    assert_eq!(
        parse_xml(r#"<note lang="en" id="10"></note>"#),
        Ok(vec![element("note", vec![pair("lang", "en"), pair("id", "10")], vec![])])
    );
}

#[test]
fn attributes_may_repeat_and_be_spaced() {
    assert_eq!(
        parse_xml("<e a = \"1\"\n\ta=\"2\"b=\"\" ></e >"),
        Ok(vec![element("e", vec![pair("a", "1"), pair("a", "2"), pair("b", "")], vec![])])
    );
}

#[test]
fn attribute_values_are_not_classified_or_trimmed() {
    assert_eq!(
        parse_xml(r#"<e n=" 42 " t="a &lt; b &amp; c > d" q="&quot;&apos;"></e>"#),
        Ok(vec![element(
            "e",
            vec![pair("n", " 42 "), pair("t", "a < b & c > d"), pair("q", "\"'")],
            vec![],
        )])
    );
}

#[test]
fn nesting_is_kept() {
    assert_eq!(
        parse_xml("<root><parent><child>Value</child></parent></root>"),
        Ok(vec![element(
            "root",
            vec![],
            vec![element("parent", vec![], vec![element("child", vec![], vec![text("Value")])])],
        )])
    );
}

#[test]
fn an_empty_element_has_no_children() {
    assert_eq!(parse_xml("<empty></empty>"), Ok(vec![element("empty", vec![], vec![])]));
    assert_eq!(parse_xml("<empty>  \n </empty>"), Ok(vec![element("empty", vec![], vec![])]));
}

#[test]
fn text_is_trimmed_and_classified() {
    assert_eq!(
        parse_xml("<a> Tove </a><b> 42 </b><c>4 2</c><d>99999999999</d><e>-7</e><f>4a</f>"),
        Ok(vec![
            element("a", vec![], vec![text("Tove")]),
            element("b", vec![], vec![XmlValue::Number(42)]),
            element("c", vec![], vec![text("4 2")]),
            element("d", vec![], vec![text("99999999999")]),
            element("e", vec![], vec![XmlValue::Number(-7)]),
            element("f", vec![], vec![text("4a")]),
        ])
    );
}

#[test]
fn mixed_content_keeps_document_order() {
    assert_eq!(
        parse_xml("<p>one <b>two</b> 3 <i></i>four</p>"),
        Ok(vec![element(
            "p",
            vec![],
            vec![
                text("one"),
                element("b", vec![], vec![text("two")]),
                XmlValue::Number(3),
                element("i", vec![], vec![]),
                text("four"),
            ],
        )])
    );
}

#[test]
fn entity_references_are_resolved() {
    assert_eq!(
        parse_xml("<a>&lt;b&gt; &amp;amp; &quot;q&quot; &apos;s&apos;</a>"),
        Ok(vec![element("a", vec![], vec![text("<b> &amp; \"q\" 's'")])])
    );
    assert_eq!(parse_xml("<a>&lt;</a>"), Ok(vec![element("a", vec![], vec![text("<")])]));
}

#[test]
fn names_may_hold_digits_and_marks() {
    assert_eq!(
        parse_xml(r#"<a1-b.c_d x-1.y_="v"></a1-b.c_d>"#),
        Ok(vec![element("a1-b.c_d", vec![pair("x-1.y_", "v")], vec![])])
    );
}

#[test]
fn text_at_the_top_level_is_refused() {
    assert_eq!(fault("hello"), (SyntaxFault::ExpectedElement, 0));
    assert_eq!(fault("<a>x</a> tail"), (SyntaxFault::ExpectedElement, 9));
    assert_eq!(fault("  42"), (SyntaxFault::ExpectedElement, 2));
}

#[test]
fn a_tag_needs_a_name() {
    assert_eq!(fault("<1a></1a>"), (SyntaxFault::ExpectedName, 1));
    assert_eq!(fault("< a></a>"), (SyntaxFault::ExpectedName, 1));
    assert_eq!(fault("<"), (SyntaxFault::ExpectedName, 1));
    assert_eq!(fault("</a>"), (SyntaxFault::ExpectedName, 1));
    assert_eq!(fault("<a></>"), (SyntaxFault::ExpectedName, 5));
    assert_eq!(fault("<a></"), (SyntaxFault::ExpectedName, 5));
    assert_eq!(fault("<?xml version=\"1.0\"?><a></a>"), (SyntaxFault::ExpectedName, 1));
    assert_eq!(fault("<a><!-- c --></a>"), (SyntaxFault::ExpectedName, 4));
}

#[test]
fn a_start_tag_needs_its_end() {
    assert_eq!(fault("<a"), (SyntaxFault::ExpectedAttributeOrTagEnd, 2));
    assert_eq!(fault("<a ?>"), (SyntaxFault::ExpectedAttributeOrTagEnd, 3));
    assert_eq!(fault("<a/>"), (SyntaxFault::ExpectedAttributeOrTagEnd, 2));
    assert_eq!(fault("<a b=\"1\" 2></a>"), (SyntaxFault::ExpectedAttributeOrTagEnd, 9));
}

#[test]
fn an_attribute_needs_key_equals_and_quotes() {
    assert_eq!(fault("<a b></a>"), (SyntaxFault::ExpectedEquals, 4));
    assert_eq!(fault("<a b"), (SyntaxFault::ExpectedEquals, 4));
    assert_eq!(fault("<a b=c></a>"), (SyntaxFault::ExpectedQuote, 5));
    assert_eq!(fault("<a b='c'></a>"), (SyntaxFault::ExpectedQuote, 5));
    assert_eq!(fault("<a b="), (SyntaxFault::ExpectedQuote, 5));
    assert_eq!(fault("<a b=\"c></a>"), (SyntaxFault::UnterminatedValue, 12));
}

#[test]
fn an_unknown_entity_is_refused() {
    assert_eq!(fault("<a>&bogus;</a>"), (SyntaxFault::UnknownEntity, 3));
    assert_eq!(fault("<a>AT&T</a>"), (SyntaxFault::UnknownEntity, 5));
    assert_eq!(fault("<a>x &amp</a>"), (SyntaxFault::UnknownEntity, 5));
    assert_eq!(fault("<a b=\"&#65;\"></a>"), (SyntaxFault::UnknownEntity, 6));
    assert_eq!(fault("<a>&"), (SyntaxFault::UnknownEntity, 3));
}

#[test]
fn an_end_tag_needs_its_end() {
    assert_eq!(fault("<a></a x>"), (SyntaxFault::ExpectedTagEnd, 7));
    assert_eq!(fault("<a></a"), (SyntaxFault::ExpectedTagEnd, 6));
}

#[test]
fn a_mismatched_end_tag_is_refused() {
    assert_eq!(fault("<note><to>Tove</from></note>"), (SyntaxFault::MismatchedEndTag, 16));
    assert_eq!(fault("<a></A>"), (SyntaxFault::MismatchedEndTag, 5));
    assert_eq!(fault("<a><b></a></b>"), (SyntaxFault::MismatchedEndTag, 8));
    assert_eq!(fault("<ab></a>"), (SyntaxFault::MismatchedEndTag, 6));
}

#[test]
fn an_unclosed_element_is_refused() {
    assert_eq!(fault("<a>"), (SyntaxFault::UnclosedElement, 3));
    assert_eq!(fault("<a><b></b>"), (SyntaxFault::UnclosedElement, 10));
    assert_eq!(fault("<a>text"), (SyntaxFault::UnclosedElement, 7));
    assert_eq!(fault("<a>  "), (SyntaxFault::UnclosedElement, 5));
}

#[test]
fn a_failed_parse_returns_no_values() {
    assert_eq!(
        parse_xml("<good></good><bad>"),
        Err(XmlParseError::SyntaxError { fault: SyntaxFault::UnclosedElement, position: 18 })
    );
}

#[test]
fn errors_describe_themselves() {
    let faults = [
        (SyntaxFault::ExpectedElement, "expected an element"),
        (SyntaxFault::ExpectedName, "expected a name"),
        (SyntaxFault::ExpectedAttributeOrTagEnd, "expected an attribute or `>`"),
        (SyntaxFault::ExpectedEquals, "expected `=` after the attribute key"),
        (SyntaxFault::ExpectedQuote, "expected `\"` to open the attribute value"),
        (SyntaxFault::UnterminatedValue, "the attribute value is not closed"),
        (SyntaxFault::UnknownEntity, "unknown entity reference"),
        (SyntaxFault::ExpectedTagEnd, "expected `>` to close the end tag"),
        (SyntaxFault::MismatchedEndTag, "the end tag does not match the start tag"),
        (SyntaxFault::UnclosedElement, "the element is not closed"),
    ];
    for (fault, sentence) in faults {
        assert_eq!(fault.message(), sentence);
        let error = XmlParseError::SyntaxError { fault, position: 5 };
        assert_eq!(error.message(), sentence);
        assert_eq!(error.position(), 5);
    }
}

#[test]
fn deep_nesting_parses() {
    let depth = 300;
    let mut xml = String::new();
    for _ in 0..depth {
        xml.push_str("<d>");
    }
    xml.push_str("7");
    for _ in 0..depth {
        xml.push_str("</d>");
    }
    let mut value = &parse_xml(&xml).expect("the document parses")[0];
    for _ in 1..depth {
        match value {
            XmlValue::Element { name, children, .. } => {
                assert_eq!(name, "d");
                assert_eq!(children.len(), 1);
                value = &children[0];
            }
            other => panic!("{other:?}"),
        }
    }
    assert_eq!(*value, element("d", vec![], vec![XmlValue::Number(7)]));
}

#[test]
fn many_siblings_parse() {
    let count = 20000;
    let mut xml = String::from("<list>");
    for i in 0..count {
        xml.push_str(&format!("<i>{i}</i>"));
    }
    xml.push_str("</list>");
    match &parse_xml(&xml).expect("the document parses")[0] {
        XmlValue::Element { children, .. } => {
            assert_eq!(children.len(), count);
            assert_eq!(children[12345], element("i", vec![], vec![XmlValue::Number(12345)]));
        }
        other => panic!("{other:?}"),
    }
}

#[test]
fn every_kind_of_whitespace_separates() {
    assert_eq!(
        parse_xml("\u{feff}<a></a>").unwrap_err(),
        XmlParseError::SyntaxError { fault: SyntaxFault::ExpectedElement, position: 0 }
    );
    assert_eq!(
        parse_xml("\u{a0}<a\u{2003}k\u{3000}=\u{85}\"v\"\r\n>\u{2028}x\u{a0}y\u{2029}</a\u{1680}>\u{205f}"),
        Ok(vec![element("a", vec![pair("k", "v")], vec![text("x\u{a0}y")])])
    );
}

#[test]
fn marks_inside_text_and_values_stand_for_themselves() {
    assert_eq!(
        parse_xml("<a k=\"<b> 'c' = d\">e > f \" g ' h = i / j</a>"),
        Ok(vec![element("a", vec![pair("k", "<b> 'c' = d")], vec![text("e > f \" g ' h = i / j")])])
    );
}
