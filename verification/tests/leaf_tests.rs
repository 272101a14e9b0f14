use xml_parser::chars::{chars_of, digit, name_char, name_start, whitespace};
use xml_parser::leaf::{classify_leaf, read_i32};
use xml_parser::scan::{back_over_whitespace, skip_name, skip_whitespace, string_of};
use xml_parser::XmlValue;

fn text(s: &str) -> XmlValue {
    XmlValue::String(s.to_string())
}

#[test]
fn classifies_integers_as_numbers() {
    assert_eq!(classify_leaf("42"), XmlValue::Number(42));
    assert_eq!(classify_leaf("-7"), XmlValue::Number(-7));
    assert_eq!(classify_leaf("0"), XmlValue::Number(0));
    assert_eq!(classify_leaf("-0"), XmlValue::Number(0));
    assert_eq!(classify_leaf("007"), XmlValue::Number(7));
    assert_eq!(classify_leaf(" 30\n"), XmlValue::Number(30));
}

#[test]
fn classifies_the_limits_of_i32() {
    assert_eq!(classify_leaf("2147483647"), XmlValue::Number(i32::MAX));
    assert_eq!(classify_leaf("-2147483648"), XmlValue::Number(i32::MIN));
    assert_eq!(classify_leaf("2147483648"), text("2147483648"));
    assert_eq!(classify_leaf("-2147483649"), text("-2147483649"));
    assert_eq!(classify_leaf("00000000000000000000002147483647"), XmlValue::Number(i32::MAX));
}

#[test]
fn overflow_falls_back_to_a_string() {
    assert_eq!(classify_leaf("99999999999"), text("99999999999"));
    assert_eq!(classify_leaf("-99999999999"), text("-99999999999"));
    assert_eq!(
        classify_leaf("123456789012345678901234567890123456789012345678901234567890"),
        text("123456789012345678901234567890123456789012345678901234567890")
    );
}

#[test]
fn classifies_other_text_as_strings() {
    assert_eq!(classify_leaf("4a"), text("4a"));
    assert_eq!(classify_leaf("a4"), text("a4"));
    assert_eq!(classify_leaf("-"), text("-"));
    assert_eq!(classify_leaf("--1"), text("--1"));
    assert_eq!(classify_leaf("1-"), text("1-"));
    assert_eq!(classify_leaf("1 2"), text("1 2"));
    assert_eq!(classify_leaf("1.5"), text("1.5"));
    assert_eq!(classify_leaf("1,000"), text("1,000"));
    assert_eq!(classify_leaf("0x10"), text("0x10"));
    assert_eq!(classify_leaf("١٢٣"), text("١٢٣"));
}

#[test]
fn a_leading_plus_is_no_integer() {
    assert_eq!(classify_leaf("+5"), text("+5"));
    assert_eq!(classify_leaf("+"), text("+"));
}

#[test]
fn empty_and_blank_text_is_the_empty_string() {
    assert_eq!(classify_leaf(""), text(""));
    assert_eq!(classify_leaf(" "), text(""));
    assert_eq!(classify_leaf(" \t\r\n "), text(""));
    assert_eq!(classify_leaf("\u{a0}\u{3000}"), text(""));
}

#[test]
fn trims_both_ends_and_keeps_the_inside() {
    assert_eq!(classify_leaf(" Tove "), text("Tove"));
    assert_eq!(classify_leaf("\n\tTove  &  Co. \n"), text("Tove  &  Co."));
    assert_eq!(classify_leaf("a"), text("a"));
    assert_eq!(classify_leaf("  a"), text("a"));
    assert_eq!(classify_leaf("a  "), text("a"));
}

#[test]
fn classifying_a_string_leaf_again_changes_nothing() {
    for raw in [" Tove ", "4a", "99999999999", "", "  ", "+5", "a b", " - ", "\u{2003}x y\u{2003}"] {
        match classify_leaf(raw) {
            XmlValue::String(once) => assert_eq!(classify_leaf(&once), XmlValue::String(once.clone())),
            other => panic!("{raw:?} gave {other:?}"),
        }
    }
}

#[test]
fn classifies_as_trim_and_parse_do_without_a_plus() {
    let samples = [
        "", " ", "0", "1", "-1", "12", " 12 ", "\t-12\n", "2147483647", "2147483648", "-2147483648",
        "-2147483649", "4a", "a", "-", "- 1", "1e3", "٣", "000", "-000", " x ", "x y", "\u{85}7\u{85}",
        "\u{feff}7", "1_000", "¹", "\u{1680}9\u{205f}",
    ];
    for raw in samples {
        let trimmed = raw.trim();
        let expected = match trimmed.parse::<i32>() {
            Ok(n) => XmlValue::Number(n),
            Err(_) => XmlValue::String(trimmed.to_string()),
        };
        assert_eq!(classify_leaf(raw), expected, "for {raw:?}");
    }
}

#[test]
fn whitespace_is_what_char_says() {
    for n in 0..=0x10FFFFu32 {
        if let Some(c) = char::from_u32(n) {
            assert_eq!(whitespace(c), c.is_whitespace(), "for U+{n:04X}");
        }
    }
}

#[test]
fn digits_and_name_characters() {
    for n in 0..=0x10FFFFu32 {
        if let Some(c) = char::from_u32(n) {
            assert_eq!(digit(c), c.is_ascii_digit(), "for U+{n:04X}");
            assert_eq!(name_start(c), c.is_ascii_alphabetic(), "for U+{n:04X}");
            assert_eq!(
                name_char(c),
                c.is_ascii_alphanumeric() || c == '_' || c == '-' || c == '.',
                "for U+{n:04X}"
            );
        }
    }
}

#[test]
fn chars_of_gives_the_characters() {
    assert_eq!(chars_of(""), Vec::<char>::new());
    assert_eq!(chars_of("aé€😀"), vec!['a', 'é', '€', '😀']);
}

#[test]
fn string_of_copies_a_range() {
    let input = chars_of("héllo wörld");
    assert_eq!(string_of(&input, 0, 0), "");
    assert_eq!(string_of(&input, 1, 5), "éllo");
    assert_eq!(string_of(&input, 6, 11), "wörld");
    assert_eq!(string_of(&input, 0, 11), "héllo wörld");
}

#[test]
fn runs_end_where_they_should() {
    let input = chars_of("  \tab-c.d_9 x  ");
    assert_eq!(skip_whitespace(&input, 0), 3);
    assert_eq!(skip_whitespace(&input, 3), 3);
    assert_eq!(skip_whitespace(&input, 15), 15);
    assert_eq!(skip_name(&input, 3), 11);
    assert_eq!(skip_name(&input, 0), 0);
    assert_eq!(back_over_whitespace(&input, 15), 13);
    assert_eq!(back_over_whitespace(&input, 13), 13);
    assert_eq!(back_over_whitespace(&input, 3), 0);
    let blank = chars_of("   ");
    assert_eq!(skip_whitespace(&blank, 0), 3);
    assert_eq!(back_over_whitespace(&blank, 3), 0);
}

#[test]
fn reads_integers_in_a_range() {
    let input = chars_of("x-12y");
    assert_eq!(read_i32(&input, 1, 4), Some(-12));
    assert_eq!(read_i32(&input, 2, 4), Some(12));
    assert_eq!(read_i32(&input, 1, 2), None);
    assert_eq!(read_i32(&input, 0, 4), None);
    assert_eq!(read_i32(&input, 2, 5), None);
    assert_eq!(read_i32(&input, 3, 3), None);
}
