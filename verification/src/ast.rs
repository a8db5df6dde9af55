//! The document tree produced by the parser, together with its
//! mathematical view: every executable node type has a ghost mirror whose
//! leaves are `Seq<char>`, and the contracts of the whole crate speak of
//! those views.

use vstd::prelude::*;

verus! {

broadcast use vstd::seq::axiom_seq_index_decreases;

/// One attribute of a block or inline element.  Attributes form an ordered
/// list in which duplicates are allowed, except that all CSS properties of
/// an element are merged into a single `Style` entry whose keys are unique
/// (the last write to a key wins).
#[derive(Debug, PartialEq, Eq)]
pub enum Attribute {
    /// CSS classes, e.g. `(my-class other-class)`.
    Class(Vec<String>),
    /// Element id, e.g. `(#my-id)`.
    Id(String),
    /// Language code, e.g. `[en]` or `[en-GB]`.
    Language(String),
    /// Alignment keyword; kept for completeness of the model.
    Align(String),
    /// CSS properties, e.g. `{color: black; width: 1em}`; ordered,
    /// keys unique.
    Style(Vec<(String, String)>),
}

/// Ordered list of attributes of one element.
pub type Attributes = Vec<Attribute>;

/// Tag used when rendering bold text.
#[derive(Debug, PartialEq, Eq, Structural, Clone, Copy)]
pub enum BoldTagType {
    /// Rendered as `<b>`; produced by a doubled delimiter (`**Text**`).
    Bold,
    /// Rendered as `<strong>`; produced by a single delimiter (`*Text*`).
    Strong,
}

/// Tag used when rendering italic text.
#[derive(Debug, PartialEq, Eq, Structural, Clone, Copy)]
pub enum ItalicTagType {
    /// Rendered as `<em>`; produced by a single delimiter (`_Text_`).
    Emphasis,
    /// Rendered as `<i>`; produced by a doubled delimiter (`__Text__`).
    Italic,
}

/// Inline (span-level) element of one logical line.
#[derive(Debug, PartialEq, Eq)]
pub enum Inline {
    /// Abbreviation, e.g. `ABBR(Abbreviation)`.
    Abbreviation { abbr: String, transcript: String },
    /// Bold text, e.g. `*Text*` or `**Text**`.
    Bold { attributes: Attributes, elements: Vec<Inline>, tag_type: BoldTagType },
    /// Explicit line join; renders as `<br>`.
    Break,
    /// Citation, e.g. `??Some citation??`.
    Citation { attributes: Attributes, elements: Vec<Inline> },
    /// Inline code, e.g. `@puts "Hello"@`; raw, never re-parsed.
    Code(String),
    /// Image, e.g. `!http://example.com/image.jpg(Alt)!:http://example.com`.
    Image { attributes: Attributes, align: String, alt: String, href: String, src: String },
    /// Italic text, e.g. `_Text_` or `__Text__`.
    Italic { attributes: Attributes, elements: Vec<Inline>, tag_type: ItalicTagType },
    /// Link, e.g. `"Description":http://example.com`.
    Link { attributes: Attributes, elements: Vec<Inline>, href: String, title: String },
    /// Span element, e.g. `%Span text%`.
    Span { attributes: Attributes, elements: Vec<Inline> },
    /// Strikethrough text, e.g. `-Text-`.
    Strikethrough { attributes: Attributes, elements: Vec<Inline> },
    /// Subscript text, e.g. `~Text~`.
    Subscript { attributes: Attributes, elements: Vec<Inline> },
    /// Superscript text, e.g. `^Text^`.
    Superscript { attributes: Attributes, elements: Vec<Inline> },
    /// Plain text.
    Text(String),
    /// Underlined text, e.g. `+Text+`.
    Underlined { attributes: Attributes, elements: Vec<Inline> },
}

/// One entry of an ordered or unordered list.  A nested, deeper list is a
/// sibling entry of the items around it, not a child of the item before it.
#[derive(Debug, PartialEq, Eq)]
pub enum ListElement {
    /// A plain item of the list.
    ListItem { attributes: Attributes, elements: Vec<Inline> },
    /// A nested list one level deeper.
    List(Block),
}

/// Block (top-level) element of the document.
#[derive(Debug, PartialEq, Eq)]
pub enum Block {
    /// Block quotation, e.g. `bq. Some quote`; its body is itself a
    /// sequence of blocks.  An empty `cite` means no citation URL.
    BlockQuotation { attributes: Attributes, cite: String, elements: Vec<Block> },
    /// Code block, e.g. `bc. print("Hello")`; raw, never re-parsed.
    CodeBlock { attributes: Attributes, code: String },
    /// Comment block; kept in the tree, produces no rendered output.
    Comment(Vec<String>),
    /// Heading of a level between 1 and 6, e.g. `h2. Some text`.
    Heading { attributes: Attributes, elements: Vec<Inline>, level: u8 },
    /// Block in which Textile formatting is disabled; raw lines.
    NoTextileBlock(Vec<String>),
    /// Ordered list, e.g. `# First item`; `level` counts nesting from 0.
    OrderedList { attributes: Attributes, elements: Vec<ListElement>, level: u8, start: Option<u8> },
    /// Paragraph, with or without an explicit `p. ` marker.
    Paragraph { attributes: Attributes, elements: Vec<Inline>, starts_with_p: bool },
    /// Pre-formatted block, e.g. `pre. *Some text*`; raw lines.
    Pre { attributes: Attributes, lines: Vec<String> },
    /// Unordered list, e.g. `* List item`; `level` counts nesting from 0.
    UnorderedList { attributes: Attributes, elements: Vec<ListElement>, level: u8 },
}

/// Ghost mirror of [`Attribute`].
#[verifier::ext_equal]
pub enum AttrV {
    Class(Seq<Seq<char>>),
    Id(Seq<char>),
    Language(Seq<char>),
    Align(Seq<char>),
    Style(Seq<(Seq<char>, Seq<char>)>),
}

/// Ghost mirror of [`Inline`].
#[verifier::ext_equal]
pub enum InlineV {
    Abbreviation { abbr: Seq<char>, transcript: Seq<char> },
    Bold { attributes: Seq<AttrV>, elements: Seq<InlineV>, tag_type: BoldTagType },
    Break,
    Citation { attributes: Seq<AttrV>, elements: Seq<InlineV> },
    Code(Seq<char>),
    Image { attributes: Seq<AttrV>, align: Seq<char>, alt: Seq<char>, href: Seq<char>, src: Seq<char> },
    Italic { attributes: Seq<AttrV>, elements: Seq<InlineV>, tag_type: ItalicTagType },
    Link { attributes: Seq<AttrV>, elements: Seq<InlineV>, href: Seq<char>, title: Seq<char> },
    Span { attributes: Seq<AttrV>, elements: Seq<InlineV> },
    Strikethrough { attributes: Seq<AttrV>, elements: Seq<InlineV> },
    Subscript { attributes: Seq<AttrV>, elements: Seq<InlineV> },
    Superscript { attributes: Seq<AttrV>, elements: Seq<InlineV> },
    Text(Seq<char>),
    Underlined { attributes: Seq<AttrV>, elements: Seq<InlineV> },
}

/// Ghost mirror of [`ListElement`].
#[verifier::ext_equal]
pub enum ListElementV {
    ListItem { attributes: Seq<AttrV>, elements: Seq<InlineV> },
    List(BlockV),
}

/// Ghost mirror of [`Block`].
#[verifier::ext_equal]
pub enum BlockV {
    BlockQuotation { attributes: Seq<AttrV>, cite: Seq<char>, elements: Seq<BlockV> },
    CodeBlock { attributes: Seq<AttrV>, code: Seq<char> },
    Comment(Seq<Seq<char>>),
    Heading { attributes: Seq<AttrV>, elements: Seq<InlineV>, level: u8 },
    NoTextileBlock(Seq<Seq<char>>),
    OrderedList { attributes: Seq<AttrV>, elements: Seq<ListElementV>, level: u8, start: Option<u8> },
    Paragraph { attributes: Seq<AttrV>, elements: Seq<InlineV>, starts_with_p: bool },
    Pre { attributes: Seq<AttrV>, lines: Seq<Seq<char>> },
    UnorderedList { attributes: Seq<AttrV>, elements: Seq<ListElementV>, level: u8 },
}

/// View of a sequence of strings as a sequence of character sequences.
pub open spec fn strings_view(v: Seq<String>) -> Seq<Seq<char>> {
    Seq::new(v.len(), |i: int| v[i]@)
}

/// View of a sequence of string slices as a sequence of character sequences.
pub open spec fn lines_view(v: Seq<&str>) -> Seq<Seq<char>> {
    Seq::new(v.len(), |i: int| v[i]@)
}

/// View of a list of CSS properties.
pub open spec fn style_view(v: Seq<(String, String)>) -> Seq<(Seq<char>, Seq<char>)> {
    Seq::new(v.len(), |i: int| (v[i].0@, v[i].1@))
}

/// View of one attribute.
pub open spec fn attr_view(a: Attribute) -> AttrV {
    match a {
        Attribute::Class(cs) => AttrV::Class(strings_view(cs@)),
        Attribute::Id(s) => AttrV::Id(s@),
        Attribute::Language(s) => AttrV::Language(s@),
        Attribute::Align(s) => AttrV::Align(s@),
        Attribute::Style(ps) => AttrV::Style(style_view(ps@)),
    }
}

/// View of an attribute list.
pub open spec fn attrs_view(v: Seq<Attribute>) -> Seq<AttrV> {
    Seq::new(v.len(), |i: int| attr_view(v[i]))
}

/// View of one inline element.
pub open spec fn inline_view(i: Inline) -> InlineV
    decreases i,
{
    match i {
        Inline::Abbreviation { abbr, transcript } => InlineV::Abbreviation {
            abbr: abbr@,
            transcript: transcript@,
        },
        Inline::Bold { attributes, elements, tag_type } => InlineV::Bold {
            attributes: attrs_view(attributes@),
            elements: inlines_view(elements@),
            tag_type,
        },
        Inline::Break => InlineV::Break,
        Inline::Citation { attributes, elements } => InlineV::Citation {
            attributes: attrs_view(attributes@),
            elements: inlines_view(elements@),
        },
        Inline::Code(s) => InlineV::Code(s@),
        Inline::Image { attributes, align, alt, href, src } => InlineV::Image {
            attributes: attrs_view(attributes@),
            align: align@,
            alt: alt@,
            href: href@,
            src: src@,
        },
        Inline::Italic { attributes, elements, tag_type } => InlineV::Italic {
            attributes: attrs_view(attributes@),
            elements: inlines_view(elements@),
            tag_type,
        },
        Inline::Link { attributes, elements, href, title } => InlineV::Link {
            attributes: attrs_view(attributes@),
            elements: inlines_view(elements@),
            href: href@,
            title: title@,
        },
        Inline::Span { attributes, elements } => InlineV::Span {
            attributes: attrs_view(attributes@),
            elements: inlines_view(elements@),
        },
        Inline::Strikethrough { attributes, elements } => InlineV::Strikethrough {
            attributes: attrs_view(attributes@),
            elements: inlines_view(elements@),
        },
        Inline::Subscript { attributes, elements } => InlineV::Subscript {
            attributes: attrs_view(attributes@),
            elements: inlines_view(elements@),
        },
        Inline::Superscript { attributes, elements } => InlineV::Superscript {
            attributes: attrs_view(attributes@),
            elements: inlines_view(elements@),
        },
        Inline::Text(s) => InlineV::Text(s@),
        Inline::Underlined { attributes, elements } => InlineV::Underlined {
            attributes: attrs_view(attributes@),
            elements: inlines_view(elements@),
        },
    }
}

/// View of a sequence of inline elements.
pub open spec fn inlines_view(v: Seq<Inline>) -> Seq<InlineV>
    decreases v,
{
    if v.len() == 0 {
        Seq::empty()
    } else {
        inlines_view(v.drop_last()).push(inline_view(v.last()))
    }
}

/// The view of a sequence of inline elements is pointwise.
pub broadcast proof fn lemma_inlines_view(v: Seq<Inline>)
    ensures
        #[trigger] inlines_view(v).len() == v.len(),
        forall|j: int| 0 <= j < v.len() ==> inlines_view(v)[j] == inline_view(v[j]),
    decreases v.len(),
{
    if v.len() > 0 {
        lemma_inlines_view(v.drop_last());
    }
}

/// View of one list entry.
pub open spec fn list_element_view(e: ListElement) -> ListElementV
    decreases e,
{
    match e {
        ListElement::ListItem { attributes, elements } => ListElementV::ListItem {
            attributes: attrs_view(attributes@),
            elements: inlines_view(elements@),
        },
        ListElement::List(b) => ListElementV::List(block_view(b)),
    }
}

/// View of a sequence of list entries.
pub open spec fn list_elements_view(v: Seq<ListElement>) -> Seq<ListElementV>
    decreases v,
{
    if v.len() == 0 {
        Seq::empty()
    } else {
        list_elements_view(v.drop_last()).push(list_element_view(v.last()))
    }
}

/// The view of a sequence of list entries is pointwise.
pub broadcast proof fn lemma_list_elements_view(v: Seq<ListElement>)
    ensures
        #[trigger] list_elements_view(v).len() == v.len(),
        forall|j: int| 0 <= j < v.len() ==> list_elements_view(v)[j] == list_element_view(v[j]),
    decreases v.len(),
{
    if v.len() > 0 {
        lemma_list_elements_view(v.drop_last());
    }
}

/// View of one block.
pub open spec fn block_view(b: Block) -> BlockV
    decreases b,
{
    match b {
        Block::BlockQuotation { attributes, cite, elements } => BlockV::BlockQuotation {
            attributes: attrs_view(attributes@),
            cite: cite@,
            elements: blocks_view(elements@),
        },
        Block::CodeBlock { attributes, code } => BlockV::CodeBlock {
            attributes: attrs_view(attributes@),
            code: code@,
        },
        Block::Comment(ls) => BlockV::Comment(strings_view(ls@)),
        Block::Heading { attributes, elements, level } => BlockV::Heading {
            attributes: attrs_view(attributes@),
            elements: inlines_view(elements@),
            level,
        },
        Block::NoTextileBlock(ls) => BlockV::NoTextileBlock(strings_view(ls@)),
        Block::OrderedList { attributes, elements, level, start } => BlockV::OrderedList {
            attributes: attrs_view(attributes@),
            elements: list_elements_view(elements@),
            level,
            start,
        },
        Block::Paragraph { attributes, elements, starts_with_p } => BlockV::Paragraph {
            attributes: attrs_view(attributes@),
            elements: inlines_view(elements@),
            starts_with_p,
        },
        Block::Pre { attributes, lines } => BlockV::Pre {
            attributes: attrs_view(attributes@),
            lines: strings_view(lines@),
        },
        Block::UnorderedList { attributes, elements, level } => BlockV::UnorderedList {
            attributes: attrs_view(attributes@),
            elements: list_elements_view(elements@),
            level,
        },
    }
}

/// View of a sequence of blocks.
pub open spec fn blocks_view(v: Seq<Block>) -> Seq<BlockV>
    decreases v,
{
    if v.len() == 0 {
        Seq::empty()
    } else {
        blocks_view(v.drop_last()).push(block_view(v.last()))
    }
}

/// The view of a sequence of blocks is pointwise.
pub broadcast proof fn lemma_blocks_view(v: Seq<Block>)
    ensures
        #[trigger] blocks_view(v).len() == v.len(),
        forall|j: int| 0 <= j < v.len() ==> blocks_view(v)[j] == block_view(v[j]),
    decreases v.len(),
{
    if v.len() > 0 {
        lemma_blocks_view(v.drop_last());
    }
}

} // verus!
