use textile::attributes::{parse_block_attributes, parse_inline_attributes};
use textile::Attribute;

fn s(x: &str) -> String {
    x.to_string()
}

#[test]
fn parses_block_attributes_correctly() {
    assert_eq!(
        parse_block_attributes("<>)))){color: black}(my-class)"),
        vec![
            Attribute::Class(vec![s("my-class")]),
            Attribute::Style(vec![
                (s("color"), s("black")),
                (s("padding-right"), s("4em")),
                (s("text-align"), s("justify")),
            ]),
        ]
    );
}

#[test]
fn parses_inline_attributes_correctly() {
    assert_eq!(
        parse_inline_attributes(
            "(class another-class#id)[en]{font-size: 1em; background-color: #fff}"
        ),
        (
            vec![
                Attribute::Language(s("en")),
                Attribute::Class(vec![s("class"), s("another-class")]),
                Attribute::Id(s("id")),
                Attribute::Style(vec![
                    (s("font-size"), s("1em")),
                    (s("background-color"), s("#fff")),
                ]),
            ],
            s(""),
        )
    );
    assert_eq!(
        parse_inline_attributes("{text-align: center;}(class-name)"),
        (
            vec![
                Attribute::Class(vec![s("class-name")]),
                Attribute::Style(vec![(s("text-align"), s("center"))]),
            ],
            s(""),
        )
    );
}

#[test]
fn padding_run_length_becomes_em_value() {
    assert_eq!(
        parse_block_attributes("((("),
        vec![Attribute::Style(vec![(s("padding-left"), s("3em"))])]
    );
}

#[test]
fn later_css_property_overwrites_earlier_key() {
    assert_eq!(
        parse_block_attributes("{color: red; color: blue}"),
        vec![Attribute::Style(vec![(s("color"), s("blue"))])]
    );
}

#[test]
fn empty_annotation_yields_no_attributes() {
    assert_eq!(parse_block_attributes(""), Vec::<Attribute>::new());
    assert_eq!(parse_inline_attributes("plain text"), (vec![], s("plain text")));
}
