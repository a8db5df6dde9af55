//! The renderer: a structural fold over the document tree producing HTML
//! text.  Each node maps to a fixed tag; attributes are written in a
//! fixed order (class, id, lang, align, style); raw bodies are emitted
//! verbatim.  An options record selects compact or indented nesting.

use vstd::prelude::*;
use vstd::string::StrSliceExecFns;
use vstd::string::StringExecFns;

use crate::ast::{
    Attribute, Attributes, AttrV, Block, BlockV, BoldTagType, Inline, InlineV, ItalicTagType,
    ListElement, ListElementV, attr_view, attrs_view, block_view, blocks_view, inline_view,
    inlines_view, lemma_blocks_view, lemma_inlines_view, lemma_list_elements_view,
    list_element_view, list_elements_view, strings_view,
};
use crate::into_string::IntoString;
use crate::parser::{parse, spec_parse};
use crate::text::{dec_digits, dec_string, join_nl};

verus! {

broadcast use {vstd::seq::axiom_seq_index_decreases, vstd::seq::axiom_seq_subrange_decreases};

/// Options for rendering.
#[derive(Debug, PartialEq, Eq, Structural, Clone, Copy)]
pub struct RenderOptions {
    /// Compact output: no newlines between blocks and no indentation of
    /// quotation bodies.
    pub compress: bool,
    /// Number of spaces per nesting level.
    pub indent: u8,
}

/// The options used when none are given.
pub open spec fn spec_default_options() -> RenderOptions {
    RenderOptions { compress: false, indent: 2 }
}

impl Default for RenderOptions {
    /// The default options: indented output, two spaces per level.
    fn default() -> (r: RenderOptions)
        ensures
            r == spec_default_options(),
    {
        RenderOptions { compress: false, indent: 2 }
    }
}

/// A run of `n` spaces.
pub open spec fn spaces(n: int) -> Seq<char>
    decreases n,
{
    if n <= 0 {
        Seq::empty()
    } else {
        spaces(n - 1) + " "@
    }
}

/// The class tokens joined with single spaces.
pub open spec fn join_class(cs: Seq<Seq<char>>) -> Seq<char>
    decreases cs.len(),
{
    if cs.len() == 0 {
        Seq::empty()
    } else if cs.len() == 1 {
        cs[0]
    } else {
        join_class(cs.drop_last()) + " "@ + cs.last()
    }
}

/// The CSS properties written `key: value`, joined with `; `.
pub open spec fn join_style(ps: Seq<(Seq<char>, Seq<char>)>) -> Seq<char>
    decreases ps.len(),
{
    if ps.len() == 0 {
        Seq::empty()
    } else if ps.len() == 1 {
        ps[0].0 + ": "@ + ps[0].1
    } else {
        join_style(ps.drop_last()) + "; "@ + ps.last().0 + ": "@ + ps.last().1
    }
}

/// The rendering of one attribute, with its leading space.
pub open spec fn spec_render_attr(a: AttrV) -> Seq<char> {
    match a {
        AttrV::Class(cs) => " class=\""@ + join_class(cs) + "\""@,
        AttrV::Id(s) => " id=\""@ + s + "\""@,
        AttrV::Language(s) => " lang=\""@ + s + "\""@,
        AttrV::Align(s) => " align=\""@ + s + "\""@,
        AttrV::Style(ps) => " style=\""@ + join_style(ps) + "\""@,
    }
}

/// The rank of an attribute in the fixed rendering order.
pub open spec fn attr_rank(a: AttrV) -> int {
    match a {
        AttrV::Class(_) => 0,
        AttrV::Id(_) => 1,
        AttrV::Language(_) => 2,
        AttrV::Align(_) => 3,
        AttrV::Style(_) => 4,
    }
}

/// The rendering of the attributes of one rank, in list order.
pub open spec fn spec_render_attrs_of(attrs: Seq<AttrV>, k: int) -> Seq<char>
    decreases attrs.len(),
{
    if attrs.len() == 0 {
        Seq::empty()
    } else {
        spec_render_attrs_of(attrs.drop_last(), k) + if attr_rank(attrs.last()) == k {
            spec_render_attr(attrs.last())
        } else {
            Seq::empty()
        }
    }
}

/// The rendering of an attribute list, in the fixed order class, id,
/// lang, align, style.
pub open spec fn spec_render_attributes(attrs: Seq<AttrV>) -> Seq<char> {
    spec_render_attrs_of(attrs, 0) + spec_render_attrs_of(attrs, 1) + spec_render_attrs_of(
        attrs,
        2,
    ) + spec_render_attrs_of(attrs, 3) + spec_render_attrs_of(attrs, 4)
}

/// The rendering of one inline element.
pub open spec fn spec_render_inline(i: InlineV, opts: RenderOptions) -> Seq<char>
    decreases i, 0int,
{
    match i {
        InlineV::Abbreviation { abbr, transcript } => "<acronym title=\""@ + transcript
            + "\"><span>"@ + abbr + "</span></acronym>"@,
        InlineV::Bold { attributes, elements, tag_type } => {
            let tag = if tag_type == BoldTagType::Strong {
                "strong"@
            } else {
                "b"@
            };
            "<"@ + tag + spec_render_attributes(attributes) + ">"@ + spec_render_inlines(
                elements,
                opts,
            ) + "</"@ + tag + ">"@
        },
        InlineV::Break => "<br>"@,
        InlineV::Citation { attributes, elements } => "<cite"@ + spec_render_attributes(attributes)
            + ">"@ + spec_render_inlines(elements, opts) + "</cite>"@,
        InlineV::Code(t) => "<code>"@ + t + "</code>"@,
        InlineV::Image { attributes, align, alt, href, src } => {
            let img = "<img"@ + spec_render_attributes(attributes) + (if align.len() > 0 {
                " align=\""@ + align + "\""@
            } else {
                Seq::empty()
            }) + (if alt.len() > 0 {
                " alt=\""@ + alt + "\" title=\""@ + alt + "\""@
            } else {
                Seq::empty()
            }) + " src=\""@ + src + "\">"@;
            if href.len() > 0 {
                "<a href=\""@ + href + "\">"@ + img + "</a>"@
            } else {
                img
            }
        },
        InlineV::Italic { attributes, elements, tag_type } => {
            let tag = if tag_type == ItalicTagType::Emphasis {
                "em"@
            } else {
                "i"@
            };
            "<"@ + tag + spec_render_attributes(attributes) + ">"@ + spec_render_inlines(
                elements,
                opts,
            ) + "</"@ + tag + ">"@
        },
        InlineV::Link { attributes, elements, href, title } => "<a"@ + spec_render_attributes(
            attributes,
        ) + " href=\""@ + href + "\""@ + (if title.len() > 0 {
            " title=\""@ + title + "\""@
        } else {
            Seq::empty()
        }) + ">"@ + spec_render_inlines(elements, opts) + "</a>"@,
        InlineV::Span { attributes, elements } => "<span"@ + spec_render_attributes(attributes)
            + ">"@ + spec_render_inlines(elements, opts) + "</span>"@,
        InlineV::Strikethrough { attributes, elements } => "<del"@ + spec_render_attributes(
            attributes,
        ) + ">"@ + spec_render_inlines(elements, opts) + "</del>"@,
        InlineV::Subscript { attributes, elements } => "<sub"@ + spec_render_attributes(attributes)
            + ">"@ + spec_render_inlines(elements, opts) + "</sub>"@,
        InlineV::Superscript { attributes, elements } => "<sup"@ + spec_render_attributes(
            attributes,
        ) + ">"@ + spec_render_inlines(elements, opts) + "</sup>"@,
        InlineV::Text(t) => t,
        InlineV::Underlined { attributes, elements } => "<ins"@ + spec_render_attributes(
            attributes,
        ) + ">"@ + spec_render_inlines(elements, opts) + "</ins>"@,
    }
}

/// The rendering of a sequence of inline elements, concatenated.
pub open spec fn spec_render_inlines(v: Seq<InlineV>, opts: RenderOptions) -> Seq<char>
    decreases v, 1int,
{
    if v.len() == 0 {
        Seq::empty()
    } else {
        spec_render_inlines(v.drop_last(), opts) + spec_render_inline(v.last(), opts)
    }
}

/// The rendering of one block.
pub open spec fn spec_render_block(b: BlockV, opts: RenderOptions) -> Seq<char>
    decreases b, 2int,
{
    match b {
        BlockV::BlockQuotation { attributes, cite, elements } => {
            let open = "<blockquote"@ + (if cite.len() > 0 {
                " cite=\""@ + cite + "\""@
            } else {
                Seq::empty()
            }) + spec_render_attributes(attributes) + ">"@;
            if !opts.compress {
                open + spec_render_quote_children(elements, opts) + "\n</blockquote>"@
            } else {
                open + spec_render_blocks(elements, opts) + "</blockquote>"@
            }
        },
        BlockV::CodeBlock { attributes, code } => "<pre"@ + spec_render_attributes(attributes)
            + "><code>"@ + code + "</code></pre>"@,
        BlockV::Comment(_) => Seq::empty(),
        BlockV::Heading { attributes, elements, level } => "<h"@ + dec_digits(level as int)
            + spec_render_attributes(attributes) + ">"@ + spec_render_inlines(elements, opts)
            + "</h"@ + dec_digits(level as int) + ">"@,
        BlockV::NoTextileBlock(ls) => join_nl(ls),
        BlockV::OrderedList { attributes, elements, level, .. } => {
            let ind = spaces(opts.indent as int * (level as int));
            ind + "<ol"@ + spec_render_attributes(attributes) + ">"@ + spec_render_items(
                elements,
                opts,
                level as int,
            ) + "\n"@ + ind + "</ol>"@
        },
        BlockV::Paragraph { attributes, elements, .. } => "<p"@ + spec_render_attributes(
            attributes,
        ) + ">"@ + spec_render_inlines(elements, opts) + "</p>"@,
        BlockV::Pre { attributes, lines } => "<pre"@ + spec_render_attributes(attributes) + ">"@
            + join_nl(lines) + "</pre>"@,
        BlockV::UnorderedList { attributes, elements, level } => {
            let ind = spaces(opts.indent as int * (level as int));
            ind + "<ul"@ + spec_render_attributes(attributes) + ">"@ + spec_render_items(
                elements,
                opts,
                level as int,
            ) + "\n"@ + ind + "</ul>"@
        },
    }
}

/// The rendering of the body of an indented block quotation: each child
/// on its own line, indented one level.
pub open spec fn spec_render_quote_children(v: Seq<BlockV>, opts: RenderOptions) -> Seq<char>
    decreases v, 1int,
{
    if v.len() == 0 {
        Seq::empty()
    } else {
        spec_render_quote_children(v.drop_last(), opts) + "\n"@ + spaces(opts.indent as int)
            + spec_render_block(v.last(), opts)
    }
}

/// The rendering of a list's entries: each item on its own line, indented
/// one level deeper than the list; a nested list renders itself.
pub open spec fn spec_render_items(v: Seq<ListElementV>, opts: RenderOptions, level: int) -> Seq<
    char,
>
    decreases v, 1int,
{
    if v.len() == 0 {
        Seq::empty()
    } else {
        spec_render_items(v.drop_last(), opts, level) + "\n"@ + match v.last() {
            ListElementV::ListItem { attributes, elements } => spaces(
                opts.indent as int * (level + 1),
            ) + "<li"@ + spec_render_attributes(attributes) + ">"@ + spec_render_inlines(
                elements,
                opts,
            ) + "</li>"@,
            ListElementV::List(b) => spec_render_block(b, opts),
        }
    }
}

/// The rendering of the whole document: the blocks in order, separated by
/// newlines unless the output is compressed.
pub open spec fn spec_render_blocks(v: Seq<BlockV>, opts: RenderOptions) -> Seq<char>
    decreases v, 1int,
{
    if v.len() == 0 {
        Seq::empty()
    } else {
        spec_render_blocks(v.drop_last(), opts) + (if v.len() > 1 && !opts.compress {
            "\n"@
        } else {
            Seq::empty()
        }) + spec_render_block(v.last(), opts)
    }
}

/// The HTML of a text: parse, then render.
pub open spec fn spec_render(text: Seq<char>, opts: RenderOptions) -> Seq<char> {
    spec_render_blocks(spec_parse(text), opts)
}

/// A run of `indent * level` spaces, executably.
fn indent_spaces(indent: u8, level: usize) -> (r: String)
    requires
        level <= 256,
    ensures
        r@ == spaces(indent as int * level as int),
{
    proof {
        assert(indent as int * level as int <= 255 * 256) by (nonlinear_arith)
            requires
                indent <= 255 && level <= 256,
        ;
    }
    spaces_string((indent as usize) * level)
}

/// A run of `n` spaces, executably.
fn spaces_string(n: usize) -> (r: String)
    ensures
        r@ == spaces(n as int),
{
    let mut r = String::new();
    let mut i: usize = 0;
    while i < n
        invariant
            i <= n,
            r@ == spaces(i as int),
        decreases n - i,
    {
        r.append(" ");
        i = i + 1;
    }
    r
}

/// The rendering of one attribute, executably.
fn render_attr(a: &Attribute) -> (r: String)
    ensures
        r@ == spec_render_attr(attr_view(*a)),
{
    match a {
        Attribute::Class(cs) => {
            let mut r = String::from_str(" class=\"");
            let mut i: usize = 0;
            let ghost csv = strings_view(cs@);
            while i < cs.len()
                invariant
                    i <= cs@.len(),
                    csv == strings_view(cs@),
                    r@ == " class=\""@ + join_class(csv.subrange(0, i as int)),
                decreases cs@.len() - i,
            {
                let ghost pre = r@;
                if i > 0 {
                    r.append(" ");
                }
                r.append(cs[i].as_str());
                proof {
                    assert(csv.subrange(0, i + 1).drop_last() =~= csv.subrange(0, i as int));
                    assert(csv.subrange(0, i + 1).last() == csv[i as int]);
                }
                i = i + 1;
            }
            proof {
                assert(csv.subrange(0, csv.len() as int) =~= csv);
                assert(r@ + "\""@ =~= " class=\""@ + join_class(csv) + "\""@);
            }
            r.append("\"");
            r
        },
        Attribute::Id(s) => {
            let mut r = String::from_str(" id=\"");
            r.append(s.as_str());
            r.append("\"");
            r
        },
        Attribute::Language(s) => {
            let mut r = String::from_str(" lang=\"");
            r.append(s.as_str());
            r.append("\"");
            r
        },
        Attribute::Align(s) => {
            let mut r = String::from_str(" align=\"");
            r.append(s.as_str());
            r.append("\"");
            r
        },
        Attribute::Style(ps) => {
            let mut r = String::from_str(" style=\"");
            let mut i: usize = 0;
            let ghost psv = crate::ast::style_view(ps@);
            while i < ps.len()
                invariant
                    i <= ps@.len(),
                    psv == crate::ast::style_view(ps@),
                    r@ == " style=\""@ + join_style(psv.subrange(0, i as int)),
                decreases ps@.len() - i,
            {
                if i > 0 {
                    r.append("; ");
                }
                r.append(ps[i].0.as_str());
                r.append(": ");
                r.append(ps[i].1.as_str());
                proof {
                    assert(psv.subrange(0, i + 1).drop_last() =~= psv.subrange(0, i as int));
                    assert(psv.subrange(0, i + 1).last() == psv[i as int]);
                }
                i = i + 1;
            }
            proof {
                assert(psv.subrange(0, psv.len() as int) =~= psv);
                assert(r@ + "\""@ =~= " style=\""@ + join_style(psv) + "\""@);
            }
            r.append("\"");
            r
        },
    }
}

/// The rank of an attribute in the fixed rendering order, executably.
fn attr_rank_exec(a: &Attribute) -> (k: usize)
    ensures
        k as int == attr_rank(attr_view(*a)),
{
    match a {
        Attribute::Class(_) => 0,
        Attribute::Id(_) => 1,
        Attribute::Language(_) => 2,
        Attribute::Align(_) => 3,
        Attribute::Style(_) => 4,
    }
}

/// The rendering of the attributes of one rank, executably.
fn render_attrs_of(attrs: &Attributes, k: usize) -> (r: String)
    ensures
        r@ == spec_render_attrs_of(attrs_view(attrs@), k as int),
{
    let ghost av = attrs_view(attrs@);
    let mut r = String::new();
    let mut i: usize = 0;
    proof {
        assert(av.subrange(0, 0) =~= Seq::<AttrV>::empty());
    }
    while i < attrs.len()
        invariant
            i <= attrs@.len(),
            av == attrs_view(attrs@),
            r@ == spec_render_attrs_of(av.subrange(0, i as int), k as int),
        decreases attrs@.len() - i,
    {
        if attr_rank_exec(&attrs[i]) == k {
            r.append(render_attr(&attrs[i]).as_str());
        }
        proof {
            assert(av.subrange(0, i + 1).drop_last() =~= av.subrange(0, i as int));
            assert(av.subrange(0, i + 1).last() == av[i as int]);
            if attr_rank(av[i as int]) != k as int {
                assert(r@ + Seq::<char>::empty() =~= r@);
            }
        }
        i = i + 1;
    }
    proof {
        assert(av.subrange(0, av.len() as int) =~= av);
    }
    r
}

/// The rendering of an attribute list in the fixed order, executably.
fn render_attributes(attrs: &Attributes) -> (r: String)
    ensures
        r@ == spec_render_attributes(attrs_view(attrs@)),
{
    let mut r = render_attrs_of(attrs, 0);
    r.append(render_attrs_of(attrs, 1).as_str());
    r.append(render_attrs_of(attrs, 2).as_str());
    r.append(render_attrs_of(attrs, 3).as_str());
    r.append(render_attrs_of(attrs, 4).as_str());
    r
}

/// The rendering of one inline element, executably.
fn render_inline(i: &Inline, opts: &RenderOptions) -> (r: String)
    ensures
        r@ == spec_render_inline(inline_view(*i), *opts),
    decreases i, 0int,
{
    match i {
        Inline::Abbreviation { abbr, transcript } => {
            let mut r = String::from_str("<acronym title=\"");
            r.append(transcript.as_str());
            r.append("\"><span>");
            r.append(abbr.as_str());
            r.append("</span></acronym>");
            r
        },
        Inline::Bold { attributes, elements, tag_type } => {
            let tag: &str = if *tag_type == BoldTagType::Strong {
                "strong"
            } else {
                "b"
            };
            let mut r = String::from_str("<");
            r.append(tag);
            r.append(render_attributes(attributes).as_str());
            r.append(">");
            r.append(render_inline_elements(elements, opts).as_str());
            r.append("</");
            r.append(tag);
            r.append(">");
            r
        },
        Inline::Break => String::from_str("<br>"),
        Inline::Citation { attributes, elements } => {
            let mut r = String::from_str("<cite");
            r.append(render_attributes(attributes).as_str());
            r.append(">");
            r.append(render_inline_elements(elements, opts).as_str());
            r.append("</cite>");
            r
        },
        Inline::Code(t) => {
            let mut r = String::from_str("<code>");
            r.append(t.as_str());
            r.append("</code>");
            r
        },
        Inline::Image { attributes, align, alt, href, src } => {
            let mut img = String::from_str("<img");
            img.append(render_attributes(attributes).as_str());
            if align.as_str().unicode_len() > 0 {
                img.append(" align=\"");
                img.append(align.as_str());
                img.append("\"");
            }
            if alt.as_str().unicode_len() > 0 {
                img.append(" alt=\"");
                img.append(alt.as_str());
                img.append("\" title=\"");
                img.append(alt.as_str());
                img.append("\"");
            }
            img.append(" src=\"");
            img.append(src.as_str());
            img.append("\">");
            if href.as_str().unicode_len() > 0 {
                let mut r = String::from_str("<a href=\"");
                r.append(href.as_str());
                r.append("\">");
                r.append(img.as_str());
                r.append("</a>");
                r
            } else {
                img
            }
        },
        Inline::Italic { attributes, elements, tag_type } => {
            let tag: &str = if *tag_type == ItalicTagType::Emphasis {
                "em"
            } else {
                "i"
            };
            let mut r = String::from_str("<");
            r.append(tag);
            r.append(render_attributes(attributes).as_str());
            r.append(">");
            r.append(render_inline_elements(elements, opts).as_str());
            r.append("</");
            r.append(tag);
            r.append(">");
            r
        },
        Inline::Link { attributes, elements, href, title } => {
            let mut r = String::from_str("<a");
            r.append(render_attributes(attributes).as_str());
            r.append(" href=\"");
            r.append(href.as_str());
            r.append("\"");
            if title.as_str().unicode_len() > 0 {
                r.append(" title=\"");
                r.append(title.as_str());
                r.append("\"");
            }
            r.append(">");
            r.append(render_inline_elements(elements, opts).as_str());
            r.append("</a>");
            r
        },
        Inline::Span { attributes, elements } => {
            let mut r = String::from_str("<span");
            r.append(render_attributes(attributes).as_str());
            r.append(">");
            r.append(render_inline_elements(elements, opts).as_str());
            r.append("</span>");
            r
        },
        Inline::Strikethrough { attributes, elements } => {
            let mut r = String::from_str("<del");
            r.append(render_attributes(attributes).as_str());
            r.append(">");
            r.append(render_inline_elements(elements, opts).as_str());
            r.append("</del>");
            r
        },
        Inline::Subscript { attributes, elements } => {
            let mut r = String::from_str("<sub");
            r.append(render_attributes(attributes).as_str());
            r.append(">");
            r.append(render_inline_elements(elements, opts).as_str());
            r.append("</sub>");
            r
        },
        Inline::Superscript { attributes, elements } => {
            let mut r = String::from_str("<sup");
            r.append(render_attributes(attributes).as_str());
            r.append(">");
            r.append(render_inline_elements(elements, opts).as_str());
            r.append("</sup>");
            r
        },
        Inline::Text(t) => t.clone(),
        Inline::Underlined { attributes, elements } => {
            let mut r = String::from_str("<ins");
            r.append(render_attributes(attributes).as_str());
            r.append(">");
            r.append(render_inline_elements(elements, opts).as_str());
            r.append("</ins>");
            r
        },
    }
}

/// The rendering of a sequence of inline elements, executably.
fn render_inline_elements(v: &Vec<Inline>, opts: &RenderOptions) -> (r: String)
    ensures
        r@ == spec_render_inlines(inlines_view(v@), *opts),
    decreases v, 1int,
{
    let ghost iv = inlines_view(v@);
    proof {
        lemma_inlines_view(v@);
    }
    let mut r = String::new();
    let mut i: usize = 0;
    proof {
        assert(iv.subrange(0, 0) =~= Seq::<InlineV>::empty());
    }
    while i < v.len()
        invariant
            i <= v@.len(),
            iv == inlines_view(v@),
            iv.len() == v@.len(),
            forall|j: int| 0 <= j < v@.len() ==> iv[j] == inline_view(v@[j]),
            r@ == spec_render_inlines(iv.subrange(0, i as int), *opts),
        decreases v@.len() - i,
    {
        r.append(render_inline(&v[i], opts).as_str());
        proof {
            assert(iv.subrange(0, i + 1).drop_last() =~= iv.subrange(0, i as int));
            assert(iv.subrange(0, i + 1).last() == iv[i as int]);
        }
        i = i + 1;
    }
    proof {
        assert(iv.subrange(0, iv.len() as int) =~= iv);
    }
    r
}

/// The rendering of one block, executably.
fn render_block(b: &Block, opts: &RenderOptions) -> (r: String)
    ensures
        r@ == spec_render_block(block_view(*b), *opts),
    decreases b, 2int,
{
    match b {
        Block::BlockQuotation { attributes, cite, elements } => {
            let mut r = String::from_str("<blockquote");
            if cite.as_str().unicode_len() > 0 {
                r.append(" cite=\"");
                r.append(cite.as_str());
                r.append("\"");
            }
            r.append(render_attributes(attributes).as_str());
            r.append(">");
            if !opts.compress {
                r.append(render_quote_children(elements, opts).as_str());
                r.append("\n</blockquote>");
            } else {
                r.append(render_blocks_with(elements, opts).as_str());
                r.append("</blockquote>");
            }
            r
        },
        Block::CodeBlock { attributes, code } => {
            let mut r = String::from_str("<pre");
            r.append(render_attributes(attributes).as_str());
            r.append("><code>");
            r.append(code.as_str());
            r.append("</code></pre>");
            r
        },
        Block::Comment(_) => String::new(),
        Block::Heading { attributes, elements, level } => {
            let digits = dec_string(*level as usize);
            let mut r = String::from_str("<h");
            r.append(digits.as_str());
            r.append(render_attributes(attributes).as_str());
            r.append(">");
            r.append(render_inline_elements(elements, opts).as_str());
            r.append("</h");
            r.append(digits.as_str());
            r.append(">");
            r
        },
        Block::NoTextileBlock(ls) => crate::block::join_lines(ls),
        Block::OrderedList { attributes, elements, level, .. } => {
            let ind = indent_spaces(opts.indent, *level as usize);
            let mut r = String::new();
            r.append(ind.as_str());
            r.append("<ol");
            r.append(render_attributes(attributes).as_str());
            r.append(">");
            r.append(render_items(elements, opts, *level as usize).as_str());
            r.append("\n");
            r.append(ind.as_str());
            r.append("</ol>");
            r
        },
        Block::Paragraph { attributes, elements, .. } => {
            let mut r = String::from_str("<p");
            r.append(render_attributes(attributes).as_str());
            r.append(">");
            r.append(render_inline_elements(elements, opts).as_str());
            r.append("</p>");
            r
        },
        Block::Pre { attributes, lines } => {
            let mut r = String::from_str("<pre");
            r.append(render_attributes(attributes).as_str());
            r.append(">");
            r.append(crate::block::join_lines(lines).as_str());
            r.append("</pre>");
            r
        },
        Block::UnorderedList { attributes, elements, level } => {
            let ind = indent_spaces(opts.indent, *level as usize);
            let mut r = String::new();
            r.append(ind.as_str());
            r.append("<ul");
            r.append(render_attributes(attributes).as_str());
            r.append(">");
            r.append(render_items(elements, opts, *level as usize).as_str());
            r.append("\n");
            r.append(ind.as_str());
            r.append("</ul>");
            r
        },
    }
}

/// The rendering of an indented quotation body, executably.
fn render_quote_children(v: &Vec<Block>, opts: &RenderOptions) -> (r: String)
    ensures
        r@ == spec_render_quote_children(blocks_view(v@), *opts),
    decreases v, 1int,
{
    let ghost bv = blocks_view(v@);
    proof {
        lemma_blocks_view(v@);
    }
    let mut r = String::new();
    let mut i: usize = 0;
    proof {
        assert(bv.subrange(0, 0) =~= Seq::<BlockV>::empty());
    }
    while i < v.len()
        invariant
            i <= v@.len(),
            bv == blocks_view(v@),
            bv.len() == v@.len(),
            forall|j: int| 0 <= j < v@.len() ==> bv[j] == block_view(v@[j]),
            r@ == spec_render_quote_children(bv.subrange(0, i as int), *opts),
        decreases v@.len() - i,
    {
        r.append("\n");
        r.append(spaces_string(opts.indent as usize).as_str());
        r.append(render_block(&v[i], opts).as_str());
        proof {
            assert(bv.subrange(0, i + 1).drop_last() =~= bv.subrange(0, i as int));
            assert(bv.subrange(0, i + 1).last() == bv[i as int]);
        }
        i = i + 1;
    }
    proof {
        assert(bv.subrange(0, bv.len() as int) =~= bv);
    }
    r
}

/// The rendering of a list's entries, executably.
fn render_items(v: &Vec<ListElement>, opts: &RenderOptions, level: usize) -> (r: String)
    requires
        level <= 255,
    ensures
        r@ == spec_render_items(list_elements_view(v@), *opts, level as int),
    decreases v, 1int,
{
    let ghost ev = list_elements_view(v@);
    proof {
        lemma_list_elements_view(v@);
    }
    let mut r = String::new();
    let mut i: usize = 0;
    proof {
        assert(ev.subrange(0, 0) =~= Seq::<ListElementV>::empty());
    }
    while i < v.len()
        invariant
            i <= v@.len(),
            ev == list_elements_view(v@),
            ev.len() == v@.len(),
            forall|j: int| 0 <= j < v@.len() ==> ev[j] == list_element_view(v@[j]),
            r@ == spec_render_items(ev.subrange(0, i as int), *opts, level as int),
            level <= 255,
        decreases v@.len() - i,
    {
        r.append("\n");
        match &v[i] {
            ListElement::ListItem { attributes, elements } => {
                r.append(indent_spaces(opts.indent, level + 1).as_str());
                r.append("<li");
                r.append(render_attributes(attributes).as_str());
                r.append(">");
                r.append(render_inline_elements(elements, opts).as_str());
                r.append("</li>");
            },
            ListElement::List(sub) => {
                r.append(render_block(sub, opts).as_str());
            },
        }
        proof {
            assert(ev.subrange(0, i + 1).drop_last() =~= ev.subrange(0, i as int));
            assert(ev.subrange(0, i + 1).last() == ev[i as int]);
        }
        i = i + 1;
    }
    proof {
        assert(ev.subrange(0, ev.len() as int) =~= ev);
    }
    r
}

/// The rendering of the whole block sequence, executably.
fn render_blocks_with(v: &Vec<Block>, opts: &RenderOptions) -> (r: String)
    ensures
        r@ == spec_render_blocks(blocks_view(v@), *opts),
    decreases v, 1int,
{
    let ghost bv = blocks_view(v@);
    proof {
        lemma_blocks_view(v@);
    }
    let mut r = String::new();
    let mut i: usize = 0;
    proof {
        assert(bv.subrange(0, 0) =~= Seq::<BlockV>::empty());
    }
    while i < v.len()
        invariant
            i <= v@.len(),
            bv == blocks_view(v@),
            bv.len() == v@.len(),
            forall|j: int| 0 <= j < v@.len() ==> bv[j] == block_view(v@[j]),
            r@ == spec_render_blocks(bv.subrange(0, i as int), *opts),
        decreases v@.len() - i,
    {
        if i > 0 && !opts.compress {
            r.append("\n");
        }
        r.append(render_block(&v[i], opts).as_str());
        proof {
            assert(bv.subrange(0, i + 1).drop_last() =~= bv.subrange(0, i as int));
            assert(bv.subrange(0, i + 1).last() == bv[i as int]);
        }
        i = i + 1;
    }
    proof {
        assert(bv.subrange(0, bv.len() as int) =~= bv);
    }
    r
}

/// Verbatim preservation: a disabled-formatting block renders to exactly
/// its captured lines joined by newlines; pre-formatted and code blocks
/// emit their captured text unchanged between their fixed tags; a comment
/// renders to nothing.  No formatting substitution touches any of them.
pub proof fn lemma_verbatim(
    attrs: Seq<AttrV>,
    ls: Seq<Seq<char>>,
    code: Seq<char>,
    opts: RenderOptions,
)
    ensures
        spec_render_block(BlockV::NoTextileBlock(ls), opts) == join_nl(ls),
        spec_render_block(BlockV::Pre { attributes: attrs, lines: ls }, opts) == "<pre"@
            + spec_render_attributes(attrs) + ">"@ + join_nl(ls) + "</pre>"@,
        spec_render_block(BlockV::CodeBlock { attributes: attrs, code }, opts) == "<pre"@
            + spec_render_attributes(attrs) + "><code>"@ + code + "</code></pre>"@,
        spec_render_block(BlockV::Comment(ls), opts) == Seq::<char>::empty(),
{
}

/// Renders Textile text into HTML with the default options.
pub fn render<S: IntoString>(text: S) -> (r: String)
    ensures
        r@ == spec_render(text.str_view(), spec_default_options()),
{
    render_with(text, RenderOptions::default())
}

/// Renders Textile text into HTML with the given options.
pub fn render_with<S: IntoString>(text: S, options: RenderOptions) -> (r: String)
    ensures
        r@ == spec_render(text.str_view(), options),
{
    let blocks = parse(text);
    render_blocks_with(&blocks, &options)
}

} // verus!
