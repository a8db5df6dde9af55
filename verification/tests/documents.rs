use textile::list::{parse_list, parse_multilevel_list};
use textile::{parse, render, render_with, Block, Inline, ListElement, RenderOptions};

fn s(x: &str) -> String {
    x.to_string()
}

#[test]
fn parses_empty_input_to_empty_document() {
    assert_eq!(parse(""), Vec::<Block>::new());
}

#[test]
fn parse_covers_blank_separated_paragraphs() {
    assert_eq!(
        parse("one\n\ntwo"),
        vec![
            Block::Paragraph {
                attributes: vec![],
                elements: vec![Inline::Text(s("one"))],
                starts_with_p: false,
            },
            Block::Paragraph {
                attributes: vec![],
                elements: vec![Inline::Text(s("two"))],
                starts_with_p: false,
            },
        ]
    );
}

#[test]
fn renders_heading_with_bold_text() {
    assert_eq!(
        render("h1. *Textile markup language*"),
        s("<h1><strong>Textile markup language</strong></h1>")
    );
}

#[test]
fn renders_multi_line_paragraph_with_break() {
    assert_eq!(
        parse("p. Paragraph\nwith text"),
        vec![Block::Paragraph {
            attributes: vec![],
            elements: vec![
                Inline::Text(s("Paragraph")),
                Inline::Break,
                Inline::Text(s("with text")),
            ],
            starts_with_p: true,
        }]
    );
    assert_eq!(
        render("p. Paragraph\nwith text"),
        s("<p>Paragraph<br>with text</p>")
    );
}

#[test]
fn renders_abbreviation_with_transcript() {
    assert_eq!(
        render("ABBR(Abbreviation)"),
        s("<p><acronym title=\"Abbreviation\"><span>ABBR</span></acronym></p>")
    );
}

#[test]
fn renders_dollar_link_with_derived_label() {
    assert_eq!(
        render("\"$\":http://example.com"),
        s("<p><a href=\"http://example.com\">example.com</a></p>")
    );
}

#[test]
fn nested_list_is_a_sibling_entry() {
    assert_eq!(
        parse("* A\n** B\n* C"),
        vec![Block::UnorderedList {
            attributes: vec![],
            elements: vec![
                ListElement::ListItem {
                    attributes: vec![],
                    elements: vec![Inline::Text(s("A"))],
                },
                ListElement::List(Block::UnorderedList {
                    attributes: vec![],
                    elements: vec![ListElement::ListItem {
                        attributes: vec![],
                        elements: vec![Inline::Text(s("B"))],
                    }],
                    level: 1,
                }),
                ListElement::ListItem {
                    attributes: vec![],
                    elements: vec![Inline::Text(s("C"))],
                },
            ],
            level: 0,
        }]
    );
}

#[test]
fn parses_ordered_list_with_start_value() {
    assert_eq!(
        parse_multilevel_list(&["#3 first", "# second"], 0),
        Some((
            Block::OrderedList {
                attributes: vec![],
                elements: vec![
                    ListElement::ListItem {
                        attributes: vec![],
                        elements: vec![Inline::Text(s("first"))],
                    },
                    ListElement::ListItem {
                        attributes: vec![],
                        elements: vec![Inline::Text(s("second"))],
                    },
                ],
                level: 0,
                start: Some(3),
            },
            2
        ))
    );
}

#[test]
fn list_stops_at_blank_line() {
    assert_eq!(
        parse_list(&["* A", "", "after"]),
        Some((
            Block::UnorderedList {
                attributes: vec![],
                elements: vec![ListElement::ListItem {
                    attributes: vec![],
                    elements: vec![Inline::Text(s("A"))],
                }],
                level: 0,
            },
            2
        ))
    );
}

#[test]
fn rendering_is_deterministic() {
    let text = "h2. Title\n\nbq. quote\n\n* A\n** B\n* C\n\np(cls). done";
    assert_eq!(render(text), render(text));
    assert_eq!(
        render_with(text, RenderOptions::default()),
        render_with(text, RenderOptions { compress: false, indent: 2 })
    );
}

#[test]
fn no_textile_block_renders_verbatim() {
    assert_eq!(
        render("notextile. No *Textile formatting* in this block."),
        s("No *Textile formatting* in this block.")
    );
}

#[test]
fn code_block_renders_verbatim() {
    assert_eq!(
        render("bc. print('Hello World')\nprint(10 * 4)"),
        s("<pre><code>print('Hello World')\nprint(10 * 4)</code></pre>")
    );
}

#[test]
fn pre_block_renders_verbatim() {
    assert_eq!(
        render("pre. *Some text*"),
        s("<pre>*Some text*</pre>")
    );
}

#[test]
fn comment_block_renders_to_nothing() {
    assert_eq!(render("###. hidden"), s(""));
}

#[test]
fn renders_block_attributes_in_fixed_order() {
    assert_eq!(
        render("h1[en](cls#id){color: red}. Title"),
        s("<h1 class=\"cls\" id=\"id\" lang=\"en\" style=\"color: red\">Title</h1>")
    );
}

#[test]
fn renders_compressed_blocks_without_separators() {
    let opts = RenderOptions { compress: true, indent: 0 };
    assert_eq!(render_with("one\n\ntwo", opts), s("<p>one</p><p>two</p>"));
}

#[test]
fn ordered_list_start_saturates_at_u8_limit() {
    assert_eq!(
        parse_multilevel_list(&["#999 big"], 0),
        Some((
            Block::OrderedList {
                attributes: vec![],
                elements: vec![ListElement::ListItem {
                    attributes: vec![],
                    elements: vec![Inline::Text(s("big"))],
                }],
                level: 0,
                start: Some(255),
            },
            1
        ))
    );
}

#[test]
fn carriage_return_line_endings_are_recognised() {
    assert_eq!(
        parse("a\r\nb"),
        vec![Block::Paragraph {
            attributes: vec![],
            elements: vec![Inline::Text(s("a")), Inline::Break, Inline::Text(s("b"))],
            starts_with_p: false,
        }]
    );
}
