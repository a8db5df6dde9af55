use textile::inline::{
    parse_abbreviation, parse_bold_text, parse_citation, parse_code, parse_image,
    parse_inline_elements, parse_italic_text, parse_link, parse_no_textile, parse_span,
    parse_strikethrough_text, parse_subscript_text, parse_superscript_text, parse_underlined_text,
};
use textile::{BoldTagType, Inline, ItalicTagType};

fn s(x: &str) -> String {
    x.to_string()
}

#[test]
fn parses_abbreviation_correctly() {
    assert_eq!(
        parse_abbreviation("ABBR(Abbreviation)"),
        Some((
            Inline::Abbreviation { abbr: s("ABBR"), transcript: s("Abbreviation") },
            18
        ))
    );
}

#[test]
fn parses_uppercase_word_correctly() {
    assert_eq!(
        parse_abbreviation("ABBR"),
        Some((
            Inline::Span { attributes: vec![], elements: vec![Inline::Text(s("ABBR"))] },
            4
        ))
    );
}

#[test]
fn not_parse_if_abbr_less_than_3_chars() {
    assert_eq!(parse_abbreviation("AB(Abbreviation)"), None);
}

#[test]
fn parses_bold_text_correctly() {
    assert_eq!(
        parse_bold_text("*Strong text*"),
        Some((
            Inline::Bold {
                attributes: vec![],
                elements: vec![Inline::Text(s("Strong text"))],
                tag_type: BoldTagType::Strong,
            },
            13
        ))
    );
    assert_eq!(
        parse_bold_text("**Bold text**"),
        Some((
            Inline::Bold {
                attributes: vec![],
                elements: vec![Inline::Text(s("Bold text"))],
                tag_type: BoldTagType::Bold,
            },
            13
        ))
    );
}

#[test]
fn parses_citation_correctly() {
    assert_eq!(
        parse_citation("??Textile citation element??"),
        Some((
            Inline::Citation {
                attributes: vec![],
                elements: vec![Inline::Text(s("Textile citation element"))],
            },
            28
        ))
    );
}

#[test]
fn code_parses_code_correctly() {
    assert_eq!(
        parse_code("@print('Hello World')@"),
        Some((Inline::Code(s("print('Hello World')")), 22))
    );
    assert_eq!(parse_code("@@"), Some((Inline::Code(s("")), 2)));
}

#[test]
fn parses_image_with_alt_text_correctly() {
    assert_eq!(
        parse_image("!http://example.com(Example image)!"),
        Some((
            Inline::Image {
                attributes: vec![],
                align: s(""),
                alt: s("Example image"),
                href: s(""),
                src: s("http://example.com"),
            },
            35
        ))
    );
}

#[test]
fn parses_image_without_alt_text_correctly() {
    assert_eq!(
        parse_image("!http://example.com!"),
        Some((
            Inline::Image {
                attributes: vec![],
                align: s(""),
                alt: s(""),
                href: s(""),
                src: s("http://example.com"),
            },
            20
        ))
    );
}

#[test]
fn parses_image_with_align_correctly() {
    assert_eq!(
        parse_image("!>http://example.com(Example image)!"),
        Some((
            Inline::Image {
                attributes: vec![],
                align: s("right"),
                alt: s("Example image"),
                href: s(""),
                src: s("http://example.com"),
            },
            36
        ))
    );
}

#[test]
fn parses_image_with_link_correctly() {
    assert_eq!(
        parse_image("!http://example.com/image.jpg(Example image)!:http://example.com"),
        Some((
            Inline::Image {
                attributes: vec![],
                align: s(""),
                alt: s("Example image"),
                href: s("http://example.com"),
                src: s("http://example.com/image.jpg"),
            },
            64
        ))
    );
}

#[test]
fn parses_italic_text_correctly() {
    assert_eq!(
        parse_italic_text("_Emphasis text_"),
        Some((
            Inline::Italic {
                attributes: vec![],
                elements: vec![Inline::Text(s("Emphasis text"))],
                tag_type: ItalicTagType::Emphasis,
            },
            15
        ))
    );
    assert_eq!(
        parse_italic_text("__Italic text__"),
        Some((
            Inline::Italic {
                attributes: vec![],
                elements: vec![Inline::Text(s("Italic text"))],
                tag_type: ItalicTagType::Italic,
            },
            15
        ))
    );
}

#[test]
fn parses_link_correctly() {
    assert_eq!(
        parse_link("\"_Text_\":http://example.com"),
        Some((
            Inline::Link {
                attributes: vec![],
                elements: vec![Inline::Italic {
                    attributes: vec![],
                    elements: vec![Inline::Text(s("Text"))],
                    tag_type: ItalicTagType::Emphasis,
                }],
                href: s("http://example.com"),
                title: s(""),
            },
            27
        ))
    );
}

#[test]
fn parses_link_with_title_correctly() {
    assert_eq!(
        parse_link("\"Link(With title)\":http://example.com"),
        Some((
            Inline::Link {
                attributes: vec![],
                elements: vec![Inline::Text(s("Link"))],
                href: s("http://example.com"),
                title: s("With title"),
            },
            37
        ))
    );
}

#[test]
fn parses_link_with_dollar_shorthand_correctly() {
    assert_eq!(
        parse_link("\"$\":http://example.com"),
        Some((
            Inline::Link {
                attributes: vec![],
                elements: vec![Inline::Text(s("example.com"))],
                href: s("http://example.com"),
                title: s(""),
            },
            22
        ))
    );
    assert_eq!(
        parse_link("\"$\":mailto:user@example.com"),
        Some((
            Inline::Link {
                attributes: vec![],
                elements: vec![Inline::Text(s("user@example.com"))],
                href: s("mailto:user@example.com"),
                title: s(""),
            },
            27
        ))
    );
}

#[test]
fn parses_no_textile_inline_element_correctly() {
    assert_eq!(
        parse_no_textile("==^Disabled Textile formatting^=="),
        Some((Inline::Text(s("^Disabled Textile formatting^")), 33))
    );
    assert_eq!(parse_no_textile("===="), Some((Inline::Text(s("")), 4)));
}

#[test]
fn parses_span_correctly() {
    assert_eq!(
        parse_span("%Span element%"),
        Some((
            Inline::Span {
                attributes: vec![],
                elements: vec![Inline::Text(s("Span element"))],
            },
            14
        ))
    );
}

#[test]
fn parses_strikethrough_text_correctly() {
    assert_eq!(
        parse_strikethrough_text("-Strikethrough text-"),
        Some((
            Inline::Strikethrough {
                attributes: vec![],
                elements: vec![Inline::Text(s("Strikethrough text"))],
            },
            20
        ))
    );
}

#[test]
fn parses_subscript_text_correctly() {
    assert_eq!(
        parse_subscript_text("~Subscript text~"),
        Some((
            Inline::Subscript {
                attributes: vec![],
                elements: vec![Inline::Text(s("Subscript text"))],
            },
            16
        ))
    );
}

#[test]
fn parses_superscript_text_correctly() {
    assert_eq!(
        parse_superscript_text("^Superscript text^"),
        Some((
            Inline::Superscript {
                attributes: vec![],
                elements: vec![Inline::Text(s("Superscript text"))],
            },
            18
        ))
    );
}

#[test]
fn parses_underlined_text_correctly() {
    assert_eq!(
        parse_underlined_text("+Underlined text+"),
        Some((
            Inline::Underlined {
                attributes: vec![],
                elements: vec![Inline::Text(s("Underlined text"))],
            },
            17
        ))
    );
}

#[test]
fn triple_delimiters_degrade_to_literal_text() {
    assert_eq!(
        parse_bold_text("***Text***"),
        Some((Inline::Text(s("***Text***")), 10))
    );
    assert_eq!(
        parse_inline_elements(&["***Text***"]),
        vec![Inline::Text(s("***Text***"))]
    );
}

#[test]
fn mismatched_delimiter_runs_degrade_to_literal_text() {
    assert_eq!(
        parse_bold_text("**one*"),
        Some((Inline::Text(s("**one*")), 6))
    );
    assert_eq!(
        parse_span("%%not a span%"),
        Some((Inline::Text(s("%%not a span%")), 13))
    );
}
