use textile::block::{
    parse_block, parse_block_quotation, parse_code_block, parse_comment, parse_heading,
    parse_no_textile, parse_paragraph, parse_pre_block,
};
use textile::{Block, BoldTagType, Inline, ItalicTagType};

fn s(x: &str) -> String {
    x.to_string()
}

#[test]
fn parses_block_quotation_correctly() {
    assert_eq!(
        parse_block_quotation(&["bq. *My quote*"]),
        Some((
            Block::BlockQuotation {
                attributes: vec![],
                cite: s(""),
                elements: vec![Block::Paragraph {
                    attributes: vec![],
                    elements: vec![Inline::Bold {
                        attributes: vec![],
                        elements: vec![Inline::Text(s("My quote"))],
                        tag_type: BoldTagType::Strong,
                    }],
                    starts_with_p: false,
                }],
            },
            1
        ))
    );
}

#[test]
fn parses_multiline_block_quotation_correctly() {
    assert_eq!(
        parse_block_quotation(&["bq.. Block quotation", "", "in multiline mode"]),
        Some((
            Block::BlockQuotation {
                attributes: vec![],
                cite: s(""),
                elements: vec![
                    Block::Paragraph {
                        attributes: vec![],
                        elements: vec![Inline::Text(s("Block quotation"))],
                        starts_with_p: false,
                    },
                    Block::Paragraph {
                        attributes: vec![],
                        elements: vec![Inline::Text(s("in multiline mode"))],
                        starts_with_p: false,
                    },
                ],
            },
            3
        ))
    );
    assert_eq!(
        parse_block_quotation(&[
            "bq.. Block quotation",
            "",
            "in multiline mode",
            "",
            "h1. Heading",
        ]),
        Some((
            Block::BlockQuotation {
                attributes: vec![],
                cite: s(""),
                elements: vec![
                    Block::Paragraph {
                        attributes: vec![],
                        elements: vec![Inline::Text(s("Block quotation"))],
                        starts_with_p: false,
                    },
                    Block::Paragraph {
                        attributes: vec![],
                        elements: vec![Inline::Text(s("in multiline mode"))],
                        starts_with_p: false,
                    },
                ],
            },
            4
        ))
    );
}

#[test]
fn parses_block_quotation_with_cite_correctly() {
    assert_eq!(
        parse_block_quotation(&["bq.:http://example.com Block quotation"]),
        Some((
            Block::BlockQuotation {
                attributes: vec![],
                cite: s("http://example.com"),
                elements: vec![Block::Paragraph {
                    attributes: vec![],
                    elements: vec![Inline::Text(s("Block quotation"))],
                    starts_with_p: false,
                }],
            },
            1
        ))
    );
}

#[test]
fn code_block_parses_code_correctly() {
    assert_eq!(
        parse_code_block(&["bc. print('Hello World')", "print(10 * 4)"]),
        Some((
            Block::CodeBlock {
                attributes: vec![],
                code: s("print('Hello World')\nprint(10 * 4)"),
            },
            2
        ))
    );
}

#[test]
fn parses_multiline_code_block_correctly() {
    assert_eq!(
        parse_code_block(&[
            "bc.. #include <iostream>",
            "using namespace std",
            "",
            "int main() {",
            "    cout << \"Hello, world!\" << endl;",
            "    return 0;",
            "}",
        ]),
        Some((
            Block::CodeBlock {
                attributes: vec![],
                code: s(
                    "#include <iostream>\nusing namespace std\n\nint main() {\n    cout << \"Hello, world!\" << endl;\n    return 0;\n}"
                ),
            },
            7
        ))
    );
    assert_eq!(
        parse_code_block(&[
            "bc.. #include <iostream>",
            "using namespace std",
            "",
            "int main() {",
            "    cout << \"Hello, world!\" << endl;",
            "    return 0;",
            "}",
            "",
            "p. Paragraph",
        ]),
        Some((
            Block::CodeBlock {
                attributes: vec![],
                code: s(
                    "#include <iostream>\nusing namespace std\n\nint main() {\n    cout << \"Hello, world!\" << endl;\n    return 0;\n}"
                ),
            },
            8
        ))
    );
}

#[test]
fn parses_comment_block_correctly() {
    assert_eq!(
        parse_comment(&["###. Comment block"]),
        Some((Block::Comment(vec![s("Comment block")]), 1))
    );
}

#[test]
fn parses_multiline_comment_block_correctly() {
    assert_eq!(
        parse_comment(&["###.. Comment block", "", "in multiline mode", "", "p. Paragraph"]),
        Some((
            Block::Comment(vec![
                s("Comment block"),
                s(""),
                s("in multiline mode"),
                s(""),
            ]),
            4
        ))
    );
}

#[test]
fn parses_heading_correctly() {
    assert_eq!(
        parse_heading(&["h2. *Bold text* _Italic text_"]),
        Some((
            Block::Heading {
                attributes: vec![],
                elements: vec![
                    Inline::Bold {
                        attributes: vec![],
                        elements: vec![Inline::Text(s("Bold text"))],
                        tag_type: BoldTagType::Strong,
                    },
                    Inline::Text(s(" ")),
                    Inline::Italic {
                        attributes: vec![],
                        elements: vec![Inline::Text(s("Italic text"))],
                        tag_type: ItalicTagType::Emphasis,
                    },
                ],
                level: 2,
            },
            1
        ))
    );
}

#[test]
fn parses_no_textile_block_correclty() {
    assert_eq!(
        parse_no_textile(&["notextile. No *Textile formatting* in this block."]),
        Some((
            Block::NoTextileBlock(vec![s("No *Textile formatting* in this block.")]),
            1
        ))
    );
}

#[test]
fn parses_paragraph_correctly() {
    assert_eq!(
        parse_paragraph(&["p. Paragraph", "with text"]),
        Some((
            Block::Paragraph {
                attributes: vec![],
                elements: vec![
                    Inline::Text(s("Paragraph")),
                    Inline::Break,
                    Inline::Text(s("with text")),
                ],
                starts_with_p: true,
            },
            2
        ))
    );
}

#[test]
fn parses_pre_block_correctly() {
    assert_eq!(
        parse_pre_block(&["pre. Pre-formatted text."]),
        Some((
            Block::Pre {
                attributes: vec![],
                lines: vec![s("Pre-formatted text.")],
            },
            1
        ))
    );
}

#[test]
fn dispatch_skips_leading_blank_lines() {
    assert_eq!(
        parse_block(&["", "", "plain"]),
        Some((
            Block::Paragraph {
                attributes: vec![],
                elements: vec![Inline::Text(s("plain"))],
                starts_with_p: false,
            },
            3
        ))
    );
}
