//! The inline tokenizer: it scans one logical line at a time, trying an
//! ordered set of anchored recognisers at each character position.  Where
//! a recogniser matches, its node is emitted and the scan advances by the
//! matched length; where none matches, the character joins a plain-text
//! accumulator.  Delimited spans recurse into the tokenizer for their
//! content, and an ambiguous delimiter run degrades to literal text by the
//! tie-break rule.

use vstd::prelude::*;
use vstd::string::StringExecFns;

use crate::ast::{
    Attribute, Attributes, AttrV, BoldTagType, Inline, InlineV, ItalicTagType, attrs_view,
    inline_view, inlines_view, lemma_inlines_view, lines_view,
};
use crate::attributes::{parse_inline_attributes, spec_inline_attrs, spec_inline_residue};
use crate::link::{link_label, spec_link_label};
use crate::text::{
    CharClass, align_mark_char, char_at, char_in, char_in_class, find_in, find_pair,
    find_pair_from, find_from, lemma_find_in, lemma_find_pair, lemma_lines_total,
    lemma_remove_all_len, lemma_rfind, lines_total, rfind, rfind_from_end, run_len, run_len_at,
    str_len, substr, substr_string, url_char,
};

verus! {

broadcast use {
    lemma_find_in,
    lemma_find_pair,
    crate::text::lemma_run_len_at,
    lemma_remove_all_len,
};

/// The pending plain text as a token sequence: nothing when it is empty,
/// one `Text` node otherwise.
pub open spec fn flush(acc: Seq<char>) -> Seq<InlineV> {
    if acc.len() == 0 {
        Seq::empty()
    } else {
        seq![InlineV::Text(acc)]
    }
}

/// Whether a delimited span `d+ content d+` starts at the head of `s`:
/// either a second run of the delimiter follows at least one content
/// character, or the head run itself is at least three delimiters long and
/// serves as its own open, content and close.
pub open spec fn delim_match(s: Seq<char>, d: char) -> bool {
    let cr = run_len_at(s, 0, CharClass::Exact(d));
    cr >= 1 && (find_in(s, cr + 1, CharClass::Exact(d)) < s.len() || cr >= 3)
}

/// The length of the opening delimiter run of the span at the head of `s`.
pub open spec fn delim_count1(s: Seq<char>, d: char) -> int {
    let cr = run_len_at(s, 0, CharClass::Exact(d));
    if find_in(s, cr + 1, CharClass::Exact(d)) < s.len() {
        cr
    } else {
        cr - 2
    }
}

/// The length of the closing delimiter run of the span at the head of `s`.
pub open spec fn delim_count2(s: Seq<char>, d: char) -> int {
    let cr = run_len_at(s, 0, CharClass::Exact(d));
    let j = find_in(s, cr + 1, CharClass::Exact(d));
    if j < s.len() {
        run_len_at(s, j, CharClass::Exact(d))
    } else {
        1
    }
}

/// The total length of the span at the head of `s`, delimiters included.
pub open spec fn delim_total(s: Seq<char>, d: char) -> int {
    let cr = run_len_at(s, 0, CharClass::Exact(d));
    let j = find_in(s, cr + 1, CharClass::Exact(d));
    if j < s.len() {
        j + run_len_at(s, j, CharClass::Exact(d))
    } else {
        cr
    }
}

/// The content of the span at the head of `s`, between the delimiters.
pub open spec fn delim_content(s: Seq<char>, d: char) -> Seq<char> {
    let cr = run_len_at(s, 0, CharClass::Exact(d));
    let j = find_in(s, cr + 1, CharClass::Exact(d));
    if j < s.len() {
        s.subrange(cr, j)
    } else {
        s.subrange(cr - 2, cr - 1)
    }
}

/// The position of the closing quote of a link: the first `"` followed by
/// `:` and a target character; the length of the string when there is
/// none.
pub open spec fn find_link_close(s: Seq<char>, i: int) -> int
    decreases s.len() - i,
{
    if i < 0 || i >= s.len() {
        s.len() as int
    } else if s[i] == '"' && i + 2 < s.len() && s[i + 1] == ':' && url_char(s[i + 2]) {
        i
    } else {
        find_link_close(s, i + 1)
    }
}

/// What `find_link_close` returns is the first such position.
pub broadcast proof fn lemma_find_link_close(s: Seq<char>, i: int)
    requires
        0 <= i <= s.len(),
    ensures
        i <= #[trigger] find_link_close(s, i) <= s.len(),
        find_link_close(s, i) < s.len() ==> {
            let j = find_link_close(s, i);
            s[j] == '"' && j + 2 < s.len() && s[j + 1] == ':' && url_char(s[j + 2])
        },
    decreases s.len() - i,
{
    if i < s.len() && !(s[i] == '"' && i + 2 < s.len() && s[i + 1] == ':' && url_char(s[i + 2])) {
        lemma_find_link_close(s, i + 1);
    }
}

/// How an image or link description splits into a body and an optional
/// parenthetical tail: the tail runs from the first `(` to the last `)`,
/// and exists only when at least one character stands between them.
pub open spec fn paren_tail_exists(res: Seq<char>) -> bool {
    let p = find_in(res, 0, CharClass::Exact('('));
    let q = rfind(res, ')');
    p < res.len() && q >= p + 2
}

/// The parenthetical tail of a description.
pub open spec fn paren_tail(res: Seq<char>) -> Seq<char> {
    let p = find_in(res, 0, CharClass::Exact('('));
    let q = rfind(res, ')');
    res.subrange(p + 1, q)
}

/// The description with its parenthetical tail removed.
pub open spec fn paren_body(res: Seq<char>) -> Seq<char> {
    if paren_tail_exists(res) {
        let p = find_in(res, 0, CharClass::Exact('('));
        let q = rfind(res, ')');
        res.subrange(0, p) + res.subrange(q + 1, res.len() as int)
    } else {
        res
    }
}

/// The body of a description is never longer than the description.
pub broadcast proof fn lemma_paren_body(res: Seq<char>)
    ensures
        #[trigger] paren_body(res).len() <= res.len(),
{
    lemma_rfind(res, ')');
    lemma_find_in(res, 0, CharClass::Exact('('));
}

/// The mapped alignment word of an image alignment marker.
pub open spec fn align_word(c: char) -> Seq<char> {
    if c == '<' {
        "left"@
    } else if c == '=' {
        "center"@
    } else if c == '>' {
        "right"@
    } else {
        Seq::empty()
    }
}

/// The attributes of a delimited span's content.
pub open spec fn span_attrs(content: Seq<char>) -> Seq<AttrV> {
    spec_inline_attrs(content)
}

/// The tokens of a delimited span's content: the content is stripped of
/// its attribute annotation and tokenized as one line.
pub open spec fn span_children(content: Seq<char>) -> Seq<InlineV>
    decreases content.len() + 1, 0int,
{
    let residue = spec_inline_residue(content);
    if residue.len() <= content.len() {
        spec_line_tokens(residue, 0, 0)
    } else {
        Seq::empty()
    }
}

/// The abbreviation attempt: an uppercase run of length at least three,
/// optionally followed by a parenthesised transcript.  A run without a
/// transcript is a plain span, not an abbreviation.
pub open spec fn spec_abbreviation(s: Seq<char>) -> Option<(InlineV, int)> {
    let ar = run_len_at(s, 0, CharClass::Upper);
    if ar >= 3 {
        let j = find_in(s, ar + 1, CharClass::Exact(')'));
        if ar < s.len() && s[ar] == '(' && j < s.len() {
            let transcript = s.subrange(ar + 1, j);
            if transcript.len() == 0 {
                Some(
                    (
                        InlineV::Span {
                            attributes: Seq::empty(),
                            elements: seq![InlineV::Text(s.subrange(0, ar))],
                        },
                        j + 1,
                    ),
                )
            } else {
                Some((InlineV::Abbreviation { abbr: s.subrange(0, ar), transcript }, j + 1))
            }
        } else {
            Some(
                (
                    InlineV::Span {
                        attributes: Seq::empty(),
                        elements: seq![InlineV::Text(s.subrange(0, ar))],
                    },
                    ar,
                ),
            )
        }
    } else {
        None
    }
}

/// The bold attempt: `*`-delimited, formatted only when both runs have
/// the same length, one or two; any other combination degrades to the
/// literal text of the whole span.
pub open spec fn spec_bold(s: Seq<char>) -> Option<(InlineV, int)>
    decreases s.len(), 2int,
{
    if delim_match(s, '*') {
        let c1 = delim_count1(s, '*');
        let c2 = delim_count2(s, '*');
        let t = delim_total(s, '*');
        if c1 == c2 && (c1 == 1 || c1 == 2) {
            let content = delim_content(s, '*');
            let tag = if c1 == 1 {
                BoldTagType::Strong
            } else {
                BoldTagType::Bold
            };
            Some(
                (
                    InlineV::Bold {
                        attributes: span_attrs(content),
                        elements: span_children(content),
                        tag_type: tag,
                    },
                    t,
                ),
            )
        } else {
            Some((InlineV::Text(s.subrange(0, t)), t))
        }
    } else {
        None
    }
}

/// The citation attempt: `??`-delimited, non-greedy.
pub open spec fn spec_citation(s: Seq<char>) -> Option<(InlineV, int)>
    decreases s.len(), 2int,
{
    if 1 < s.len() && s[0] == '?' && s[1] == '?' && find_pair(s, 3, '?') < s.len() {
        let j = find_pair(s, 3, '?');
        let content = s.subrange(2, j);
        Some(
            (
                InlineV::Citation {
                    attributes: span_attrs(content),
                    elements: span_children(content),
                },
                j + 2,
            ),
        )
    } else {
        None
    }
}

/// The inline-code attempt: `@`-delimited, possibly empty, raw.
pub open spec fn spec_code(s: Seq<char>) -> Option<(InlineV, int)> {
    if 0 < s.len() && s[0] == '@' && find_in(s, 1, CharClass::Exact('@')) < s.len() {
        let j = find_in(s, 1, CharClass::Exact('@'));
        Some((InlineV::Code(s.subrange(1, j)), j + 1))
    } else {
        None
    }
}

/// The image attempt: `!`-delimited descriptor with an optional leading
/// alignment marker and an optional trailing `:target`.
pub open spec fn spec_image(s: Seq<char>) -> Option<(InlineV, int)> {
    if 0 < s.len() && s[0] == '!' && (
        (1 < s.len() && align_mark_char(s[1]) && find_in(s, 3, CharClass::Exact('!')) < s.len())
        || find_in(s, 2, CharClass::Exact('!')) < s.len()
    ) {
        let with_align = 1 < s.len() && align_mark_char(s[1]) && find_in(
            s,
            3,
            CharClass::Exact('!'),
        ) < s.len();
        let j = if with_align {
            find_in(s, 3, CharClass::Exact('!'))
        } else {
            find_in(s, 2, CharClass::Exact('!'))
        };
        let string = if with_align {
            s.subrange(2, j)
        } else {
            s.subrange(1, j)
        };
        let align = if with_align {
            align_word(s[1])
        } else {
            Seq::empty()
        };
        let res = spec_inline_residue(string);
        let src = paren_body(res);
        let alt = if paren_tail_exists(res) {
            paren_tail(res)
        } else {
            Seq::empty()
        };
        let hr = run_len_at(s, j + 2, CharClass::NonSpace);
        let with_href = j + 1 < s.len() && s[j + 1] == ':' && hr >= 1;
        let href = if with_href {
            s.subrange(j + 2, j + 2 + hr)
        } else {
            Seq::empty()
        };
        let total = if with_href {
            j + 2 + hr
        } else {
            j + 1
        };
        Some(
            (
                InlineV::Image { attributes: spec_inline_attrs(string), align, alt, href, src },
                total,
            ),
        )
    } else {
        None
    }
}

/// The italic attempt: `_`-delimited, with the same tie-break as bold.
pub open spec fn spec_italic(s: Seq<char>) -> Option<(InlineV, int)>
    decreases s.len(), 2int,
{
    if delim_match(s, '_') {
        let c1 = delim_count1(s, '_');
        let c2 = delim_count2(s, '_');
        let t = delim_total(s, '_');
        if c1 == c2 && (c1 == 1 || c1 == 2) {
            let content = delim_content(s, '_');
            let tag = if c1 == 1 {
                ItalicTagType::Emphasis
            } else {
                ItalicTagType::Italic
            };
            Some(
                (
                    InlineV::Italic {
                        attributes: span_attrs(content),
                        elements: span_children(content),
                        tag_type: tag,
                    },
                    t,
                ),
            )
        } else {
            Some((InlineV::Text(s.subrange(0, t)), t))
        }
    } else {
        None
    }
}

/// The link attempt: a quoted description followed by `:` and a target.
/// A description of exactly `$` is replaced by a label derived from the
/// target.
pub open spec fn spec_link(s: Seq<char>) -> Option<(InlineV, int)>
    decreases s.len(), 2int,
{
    if 0 < s.len() && s[0] == '"' && find_link_close(s, 2) < s.len() {
        let j = find_link_close(s, 2);
        let content = s.subrange(1, j);
        let hr = run_len_at(s, j + 2, CharClass::UrlTok);
        let href = s.subrange(j + 2, j + 2 + hr);
        let res = spec_inline_residue(content);
        let title = if paren_tail_exists(res) {
            paren_tail(res)
        } else {
            Seq::empty()
        };
        let desc = paren_body(res);
        let elements = if desc == "$"@ {
            seq![InlineV::Text(spec_link_label(href))]
        } else if desc.len() < s.len() {
            spec_line_tokens(desc, 0, 0)
        } else {
            Seq::empty()
        };
        Some(
            (
                InlineV::Link { attributes: spec_inline_attrs(content), elements, href, title },
                j + 2 + hr,
            ),
        )
    } else {
        None
    }
}

/// The disabled-formatting attempt: `==`-delimited raw text.
pub open spec fn spec_no_textile(s: Seq<char>) -> Option<(InlineV, int)> {
    if 1 < s.len() && s[0] == '=' && s[1] == '=' && find_pair(s, 2, '=') < s.len() {
        let j = find_pair(s, 2, '=');
        Some((InlineV::Text(s.subrange(2, j)), j + 2))
    } else {
        None
    }
}

/// A recognised single-delimiter span: formatting applies only when both
/// delimiter runs have length one; any other combination degrades to the
/// literal text of the whole matched span.
pub open spec fn spec_single_span(s: Seq<char>, d: char) -> Option<(InlineV, int)>
    decreases s.len(), 1int,
{
    if delim_match(s, d) {
        let c1 = delim_count1(s, d);
        let c2 = delim_count2(s, d);
        let t = delim_total(s, d);
        if c1 == c2 && c1 == 1 {
            let content = delim_content(s, d);
            let attributes = span_attrs(content);
            let elements = if content.len() < s.len() {
                span_children(content)
            } else {
                Seq::empty()
            };
            if d == '%' {
                Some((InlineV::Span { attributes, elements }, t))
            } else if d == '-' {
                Some((InlineV::Strikethrough { attributes, elements }, t))
            } else if d == '~' {
                Some((InlineV::Subscript { attributes, elements }, t))
            } else if d == '^' {
                Some((InlineV::Superscript { attributes, elements }, t))
            } else {
                Some((InlineV::Underlined { attributes, elements }, t))
            }
        } else {
            Some((InlineV::Text(s.subrange(0, t)), t))
        }
    } else {
        None
    }
}

/// One anchored recognition attempt at the head of `s`: the produced node
/// and the number of characters it covers, or nothing when no inline
/// construct starts exactly there.  The recognisers are tried in a fixed
/// order: abbreviation, bold, citation, code, image, italic, link,
/// disabled-formatting escape, span, strikethrough, subscript,
/// superscript, underlined.
pub open spec fn spec_inline_element(s: Seq<char>) -> Option<(InlineV, int)>
    decreases s.len(), 3int,
{
    if spec_abbreviation(s) is Some {
        spec_abbreviation(s)
    } else if spec_bold(s) is Some {
        spec_bold(s)
    } else if spec_citation(s) is Some {
        spec_citation(s)
    } else if spec_code(s) is Some {
        spec_code(s)
    } else if spec_image(s) is Some {
        spec_image(s)
    } else if spec_italic(s) is Some {
        spec_italic(s)
    } else if spec_link(s) is Some {
        spec_link(s)
    } else if spec_no_textile(s) is Some {
        spec_no_textile(s)
    } else if spec_single_span(s, '%') is Some {
        spec_single_span(s, '%')
    } else if spec_single_span(s, '-') is Some {
        spec_single_span(s, '-')
    } else if spec_single_span(s, '~') is Some {
        spec_single_span(s, '~')
    } else if spec_single_span(s, '^') is Some {
        spec_single_span(s, '^')
    } else {
        spec_single_span(s, '+')
    }
}

/// The token sequence of the rest of one line: `pos` is the scan position
/// and `start` the beginning of the pending plain-text run.
pub open spec fn spec_line_tokens(s: Seq<char>, pos: int, start: int) -> Seq<InlineV>
    decreases s.len() - pos, 4int,
{
    if !(0 <= start <= pos && pos <= s.len()) {
        Seq::empty()
    } else if pos == s.len() {
        flush(s.subrange(start, pos))
    } else {
        match spec_inline_element(s.subrange(pos, s.len() as int)) {
            Option::Some((node, t)) => {
                let adv = if t < 1 {
                    1
                } else if t > s.len() - pos {
                    s.len() - pos
                } else {
                    t
                };
                flush(s.subrange(start, pos)) + seq![node] + spec_line_tokens(
                    s,
                    pos + adv,
                    pos + adv,
                )
            },
            Option::None => spec_line_tokens(s, pos + 1, start),
        }
    }
}

/// The token sequence of the lines from index `k` on: each line is
/// tokenized on its own, and a `Break` stands between consecutive lines
/// unless the following line begins with a space.
pub open spec fn spec_inline_elements(lines: Seq<Seq<char>>, k: int) -> Seq<InlineV>
    decreases lines.len() - k,
{
    if k < 0 || k >= lines.len() {
        Seq::empty()
    } else {
        let brk: Seq<InlineV> = if k + 1 < lines.len() && !(lines[k + 1].len() > 0 && lines[k
            + 1][0] == ' ') {
            seq![InlineV::Break]
        } else {
            Seq::empty()
        };
        spec_line_tokens(lines[k], 0, 0) + brk + spec_inline_elements(lines, k + 1)
    }
}

/// Whether an executable recognition result agrees with its
/// specification: same success, same node up to view, same covered
/// length, and a covered length between one and the string length.
pub open spec fn recognised(r: Option<(Inline, usize)>, sp: Option<(InlineV, int)>, n: int) -> bool {
    match (r, sp) {
        (Option::Some((node, t)), Option::Some((nv, st))) => inline_view(node) == nv && t as int
            == st && 1 <= st <= n,
        (Option::None, Option::None) => true,
        _ => false,
    }
}

/// The delimiter-run analysis of the head of `text`: the two run lengths,
/// the total span length, and the content bounds.
fn delim_parts(text: &str, d: char) -> (r: Option<(usize, usize, usize, usize, usize)>)
    ensures
        r is Some <==> delim_match(text@, d),
        r is Some ==> {
            let (c1, c2, t, a, b) = r->Some_0;
            &&& c1 == delim_count1(text@, d)
            &&& c2 == delim_count2(text@, d)
            &&& t == delim_total(text@, d)
            &&& a <= b <= text@.len()
            &&& text@.subrange(a as int, b as int) == delim_content(text@, d)
            &&& 1 <= t <= text@.len()
            &&& b - a < text@.len()
        },
{
    let n = str_len(text);
    let cr = run_len(text, 0, CharClass::Exact(d));
    if cr == 0 {
        return None;
    }
    let j = if cr < n {
        find_from(text, cr + 1, CharClass::Exact(d))
    } else {
        n
    };
    proof {
        if cr >= n {
            assert(find_in(text@, cr + 1, CharClass::Exact(d)) == n as int);
        }
    }
    if j < n {
        let c2 = run_len(text, j, CharClass::Exact(d));
        Some((cr, c2, j + c2, cr, j))
    } else if cr >= 3 {
        Some((cr - 2, 1, cr, cr - 2, cr - 1))
    } else {
        None
    }
}

/// Recognises an uppercase run with an optional parenthesised transcript.
/// The run alone is a plain span; with a non-empty transcript it is an
/// abbreviation.
pub fn parse_abbreviation(text: &str) -> (r: Option<(Inline, usize)>)
    ensures
        recognised(r, spec_abbreviation(text@), text@.len() as int),
    decreases text@.len(), 0int, 6int,
{
    let n = str_len(text);
    let ar = run_len(text, 0, CharClass::Upper);
    if ar < 3 {
        return None;
    }
    let j = if ar < n {
        find_from(text, ar + 1, CharClass::Exact(')'))
    } else {
        n
    };
    proof {
        if ar >= n {
            assert(find_in(text@, ar + 1, CharClass::Exact(')')) == n as int);
        }
    }
    if ar < n && char_at(text, ar) == '(' && j < n {
        if j == ar + 1 {
            let mut elements: Vec<Inline> = Vec::new();
            elements.push(Inline::Text(substr_string(text, 0, ar)));
            let ghost ev = elements@;
            let node = Inline::Span { attributes: Vec::new(), elements };
            proof {
                lemma_inlines_view(ev);
                assert(inlines_view(ev)[0] == inline_view(ev[0]));
                assert(inlines_view(ev) =~= seq![InlineV::Text(text@.subrange(0, ar as int))]);
                assert(attrs_view(Seq::<Attribute>::empty()) =~= Seq::<AttrV>::empty());
                assert(inline_view(node) =~~= spec_abbreviation(text@)->Some_0.0);
            }
            Some((node, j + 1))
        } else {
            let node = Inline::Abbreviation {
                abbr: substr_string(text, 0, ar),
                transcript: substr_string(text, ar + 1, j),
            };
            proof {
                assert(inline_view(node) =~~= spec_abbreviation(text@)->Some_0.0);
            }
            Some((node, j + 1))
        }
    } else {
        let mut elements: Vec<Inline> = Vec::new();
        elements.push(Inline::Text(substr_string(text, 0, ar)));
        let ghost ev = elements@;
        let node = Inline::Span { attributes: Vec::new(), elements };
        proof {
            lemma_inlines_view(ev);
            assert(inlines_view(ev)[0] == inline_view(ev[0]));
            assert(inlines_view(ev) =~= seq![InlineV::Text(text@.subrange(0, ar as int))]);
            assert(attrs_view(Seq::<Attribute>::empty()) =~= Seq::<AttrV>::empty());
            assert(inline_view(node) =~~= spec_abbreviation(text@)->Some_0.0);
        }
        Some((node, ar))
    }
}

/// Recognises inline code between `@` delimiters; the content is raw.
pub fn parse_code(text: &str) -> (r: Option<(Inline, usize)>)
    ensures
        recognised(r, spec_code(text@), text@.len() as int),
    decreases text@.len(), 0int, 6int,
{
    let n = str_len(text);
    if n == 0 || char_at(text, 0) != '@' {
        return None;
    }
    let j = find_from(text, 1, CharClass::Exact('@'));
    if j < n {
        Some((Inline::Code(substr_string(text, 1, j)), j + 1))
    } else {
        None
    }
}

/// Recognises the `==`-delimited escape in which formatting is disabled.
pub fn parse_no_textile(text: &str) -> (r: Option<(Inline, usize)>)
    ensures
        recognised(r, spec_no_textile(text@), text@.len() as int),
    decreases text@.len(), 0int, 6int,
{
    let n = str_len(text);
    if n < 2 || char_at(text, 0) != '=' || char_at(text, 1) != '=' {
        return None;
    }
    let j = find_pair_from(text, 2, '=');
    if j < n {
        Some((Inline::Text(substr_string(text, 2, j)), j + 2))
    } else {
        None
    }
}

/// The tokens of a delimited span's content, executably: the content is
/// stripped of its attribute annotation and tokenized as one line.
fn span_parts(content: &str) -> (r: (Attributes, Vec<Inline>))
    requires
        content@.len() >= 1,
    ensures
        attrs_view(r.0@) == span_attrs(content@),
        inlines_view(r.1@) == span_children(content@),
    decreases content@.len(), 1int, 0int,
{
    let (attrs, residue) = parse_inline_attributes(content);
    proof {
        assert(residue@.len() <= content@.len());
    }
    let children = tokenize_one(residue.as_str());
    (attrs, children)
}

/// Recognises a `*`-delimited bold span, or its literal degradation.
#[verifier::rlimit(100)]
pub fn parse_bold_text(text: &str) -> (r: Option<(Inline, usize)>)
    ensures
        recognised(r, spec_bold(text@), text@.len() as int),
    decreases text@.len(), 0int, 6int,
{
    match delim_parts(text, '*') {
        Option::None => None,
        Option::Some((c1, c2, t, a, b)) => {
            if c1 == c2 && (c1 == 1 || c1 == 2) {
                let (attributes, elements) = span_parts(substr(text, a, b));
                let tag_type = if c1 == 1 {
                    BoldTagType::Strong
                } else {
                    BoldTagType::Bold
                };
                let node = Inline::Bold { attributes, elements, tag_type };
                proof {
                    assert(inline_view(node) =~~= spec_bold(text@)->Some_0.0);
                }
                Some((node, t))
            } else {
                Some((Inline::Text(substr_string(text, 0, t)), t))
            }
        },
    }
}

/// Recognises a `_`-delimited italic span, or its literal degradation.
#[verifier::rlimit(100)]
pub fn parse_italic_text(text: &str) -> (r: Option<(Inline, usize)>)
    ensures
        recognised(r, spec_italic(text@), text@.len() as int),
    decreases text@.len(), 0int, 6int,
{
    match delim_parts(text, '_') {
        Option::None => None,
        Option::Some((c1, c2, t, a, b)) => {
            if c1 == c2 && (c1 == 1 || c1 == 2) {
                let (attributes, elements) = span_parts(substr(text, a, b));
                let tag_type = if c1 == 1 {
                    ItalicTagType::Emphasis
                } else {
                    ItalicTagType::Italic
                };
                let node = Inline::Italic { attributes, elements, tag_type };
                proof {
                    assert(inline_view(node) =~~= spec_italic(text@)->Some_0.0);
                }
                Some((node, t))
            } else {
                Some((Inline::Text(substr_string(text, 0, t)), t))
            }
        },
    }
}

/// Recognises a `??`-delimited citation.
pub fn parse_citation(text: &str) -> (r: Option<(Inline, usize)>)
    ensures
        recognised(r, spec_citation(text@), text@.len() as int),
    decreases text@.len(), 0int, 6int,
{
    let n = str_len(text);
    if n < 2 || char_at(text, 0) != '?' || char_at(text, 1) != '?' {
        return None;
    }
    let j = if n >= 3 {
        find_pair_from(text, 3, '?')
    } else {
        n
    };
    proof {
        if n < 3 {
            assert(find_pair(text@, 3, '?') == n as int);
        }
    }
    if j < n {
        let (attributes, elements) = span_parts(substr(text, 2, j));
        let node = Inline::Citation { attributes, elements };
        proof {
            assert(inline_view(node) =~~= spec_citation(text@)->Some_0.0);
        }
        Some((node, j + 2))
    } else {
        None
    }
}

/// A single-delimiter span of the given kind, or its literal degradation.
#[verifier::rlimit(100)]
fn parse_single_span(text: &str, d: char) -> (r: Option<(Inline, usize)>)
    ensures
        recognised(r, spec_single_span(text@, d), text@.len() as int),
    decreases text@.len(), 0int, 5int,
{
    match delim_parts(text, d) {
        Option::None => None,
        Option::Some((c1, c2, t, a, b)) => {
            if c1 == c2 && c1 == 1 {
                let (attributes, elements) = span_parts(substr(text, a, b));
                let node = if d == '%' {
                    Inline::Span { attributes, elements }
                } else if d == '-' {
                    Inline::Strikethrough { attributes, elements }
                } else if d == '~' {
                    Inline::Subscript { attributes, elements }
                } else if d == '^' {
                    Inline::Superscript { attributes, elements }
                } else {
                    Inline::Underlined { attributes, elements }
                };
                proof {
                    assert(inline_view(node) =~~= spec_single_span(text@, d)->Some_0.0);
                }
                Some((node, t))
            } else {
                Some((Inline::Text(substr_string(text, 0, t)), t))
            }
        },
    }
}

/// Recognises a `%`-delimited span element.
pub fn parse_span(text: &str) -> (r: Option<(Inline, usize)>)
    ensures
        recognised(r, spec_single_span(text@, '%'), text@.len() as int),
    decreases text@.len(), 0int, 6int,
{
    parse_single_span(text, '%')
}

/// Recognises a `-`-delimited strikethrough span.
pub fn parse_strikethrough_text(text: &str) -> (r: Option<(Inline, usize)>)
    ensures
        recognised(r, spec_single_span(text@, '-'), text@.len() as int),
    decreases text@.len(), 0int, 6int,
{
    parse_single_span(text, '-')
}

/// Recognises a `~`-delimited subscript span.
pub fn parse_subscript_text(text: &str) -> (r: Option<(Inline, usize)>)
    ensures
        recognised(r, spec_single_span(text@, '~'), text@.len() as int),
    decreases text@.len(), 0int, 6int,
{
    parse_single_span(text, '~')
}

/// Recognises a `^`-delimited superscript span.
pub fn parse_superscript_text(text: &str) -> (r: Option<(Inline, usize)>)
    ensures
        recognised(r, spec_single_span(text@, '^'), text@.len() as int),
    decreases text@.len(), 0int, 6int,
{
    parse_single_span(text, '^')
}

/// Recognises a `+`-delimited underlined span.
pub fn parse_underlined_text(text: &str) -> (r: Option<(Inline, usize)>)
    ensures
        recognised(r, spec_single_span(text@, '+'), text@.len() as int),
    decreases text@.len(), 0int, 6int,
{
    parse_single_span(text, '+')
}

/// The mapped alignment word of an image alignment marker, executably.
fn align_str(c: char) -> (r: String)
    ensures
        r@ == align_word(c),
{
    if c == '<' {
        String::from_str("left")
    } else if c == '=' {
        String::from_str("center")
    } else if c == '>' {
        String::from_str("right")
    } else {
        String::new()
    }
}

/// Recognises a `!`-delimited image with an optional alignment marker,
/// parenthetical alternative text and trailing link target.
pub fn parse_image(text: &str) -> (r: Option<(Inline, usize)>)
    ensures
        recognised(r, spec_image(text@), text@.len() as int),
    decreases text@.len(), 0int, 6int,
{
    let n = str_len(text);
    if n == 0 || char_at(text, 0) != '!' {
        return None;
    }
    let has_align = 1 < n && char_in_class(CharClass::AlignMark, char_at(text, 1));
    let j3 = if has_align && 3 <= n {
        find_from(text, 3, CharClass::Exact('!'))
    } else {
        n
    };
    proof {
        if has_align && 3 > n {
            assert(find_in(text@, 3, CharClass::Exact('!')) == n as int);
        }
    }
    let with_align = has_align && j3 < n;
    let j = if with_align {
        j3
    } else if 2 <= n {
        find_from(text, 2, CharClass::Exact('!'))
    } else {
        n
    };
    proof {
        if !with_align && 2 > n {
            assert(find_in(text@, 2, CharClass::Exact('!')) == n as int);
        }
    }
    if !with_align && j >= n {
        return None;
    }
    let string = if with_align {
        substr(text, 2, j)
    } else {
        substr(text, 1, j)
    };
    let (attributes, res) = parse_inline_attributes(string);
    let rs = res.as_str();
    let rn = str_len(rs);
    let p = find_from(rs, 0, CharClass::Exact('('));
    let q = rfind_from_end(rs, ')');
    let has_tail = p < rn && q < rn && q >= p && q - p >= 2;
    let (src, alt) = if has_tail {
        let mut body = substr_string(rs, 0, p);
        body.append(substr(rs, q + 1, rn));
        (body, substr_string(rs, p + 1, q))
    } else {
        (String::from_str(rs), String::new())
    };
    let align = if with_align {
        align_str(char_at(text, 1))
    } else {
        String::new()
    };
    let (href, total) = if j + 1 < n && char_at(text, j + 1) == ':' {
        let hr = run_len(text, j + 2, CharClass::NonSpace);
        if hr >= 1 {
            (substr_string(text, j + 2, j + 2 + hr), j + 2 + hr)
        } else {
            (String::new(), j + 1)
        }
    } else {
        (String::new(), j + 1)
    };
    let node = Inline::Image { attributes, align, alt, href, src };
    proof {
        lemma_rfind(rs@, ')');
        assert(has_tail == paren_tail_exists(res@));
        if has_tail {
            assert(src@ =~= paren_body(res@));
        }
        assert(inline_view(node) =~~= spec_image(text@)->Some_0.0);
        assert(total as int == spec_image(text@)->Some_0.1);
    }
    Some((node, total))
}

/// The position of the closing quote of a link, executably.
fn scan_link_close(s: &str) -> (j: usize)
    ensures
        j == find_link_close(s@, 2),
        j <= s@.len(),
        j < s@.len() ==> 2 <= j && j + 2 < s@.len() && s@[j as int] == '"' && s@[j + 1] == ':'
            && url_char(s@[j + 2]),
{
    proof {
        lemma_find_link_close(s@, if 2 <= s@.len() { 2 } else { s@.len() as int });
    }
    let n = str_len(s);
    if n < 2 {
        proof {
            assert(find_link_close(s@, 2) == n as int);
        }
        return n;
    }
    let mut j: usize = 2;
    while !(j >= n || (char_at(s, j) == '"' && n - j > 2 && char_at(s, j + 1) == ':'
        && char_in_class(CharClass::UrlTok, char_at(s, j + 2))))
        invariant
            2 <= j <= n,
            n == s@.len(),
            find_link_close(s@, 2) == find_link_close(s@, j as int),
        decreases n - j,
    {
        j = j + 1;
    }
    j
}

/// Recognises a quoted link with an optional parenthetical title; a `$`
/// description is replaced by a label derived from the target.
pub fn parse_link(text: &str) -> (r: Option<(Inline, usize)>)
    ensures
        recognised(r, spec_link(text@), text@.len() as int),
    decreases text@.len(), 0int, 6int,
{
    let n = str_len(text);
    if n == 0 || char_at(text, 0) != '"' {
        return None;
    }
    let j = scan_link_close(text);
    if j >= n {
        return None;
    }
    let content = substr(text, 1, j);
    let hr = run_len(text, j + 2, CharClass::UrlTok);
    let href = substr_string(text, j + 2, j + 2 + hr);
    let (attributes, res) = parse_inline_attributes(content);
    let rs = res.as_str();
    let rn = str_len(rs);
    let p = find_from(rs, 0, CharClass::Exact('('));
    let q = rfind_from_end(rs, ')');
    let has_tail = p < rn && q < rn && q >= p && q - p >= 2;
    let title = if has_tail {
        substr_string(rs, p + 1, q)
    } else {
        String::new()
    };
    let desc = if has_tail {
        let mut body = substr_string(rs, 0, p);
        body.append(substr(rs, q + 1, rn));
        body
    } else {
        String::from_str(rs)
    };
    proof {
        lemma_rfind(rs@, ')');
        assert(has_tail == paren_tail_exists(res@));
        if has_tail {
            assert(desc@ =~= paren_body(res@));
        }
        assert(res@.len() <= content@.len());
        lemma_paren_body(res@);
    }
    let ds = desc.as_str();
    let is_dollar = str_len(ds) == 1 && char_at(ds, 0) == '$';
    proof {
        reveal_strlit("$");
        assert(is_dollar ==> desc@ =~= "$"@);
        assert(desc@ == "$"@ ==> is_dollar);
    }
    let elements: Vec<Inline> = if is_dollar {
        let mut v: Vec<Inline> = Vec::new();
        v.push(Inline::Text(link_label(href.as_str())));
        proof {
            lemma_inlines_view(v@);
            assert(inlines_view(v@)[0] == inline_view(v@[0]));
            assert(inlines_view(v@) =~= seq![InlineV::Text(spec_link_label(href@))]);
        }
        v
    } else {
        tokenize_one(ds)
    };
    let node = Inline::Link { attributes, elements, href, title };
    proof {
        assert(inline_view(node) =~~= spec_link(text@)->Some_0.0);
    }
    Some((node, j + 2 + hr))
}

/// One anchored recognition attempt at the head of `text`, trying the
/// recognisers in their fixed order.
fn parse_inline_element(text: &str) -> (r: Option<(Inline, usize)>)
    ensures
        recognised(r, spec_inline_element(text@), text@.len() as int),
    decreases text@.len(), 0int, 7int,
{
    let r = parse_abbreviation(text);
    if r.is_some() {
        return r;
    }
    let r = parse_bold_text(text);
    if r.is_some() {
        return r;
    }
    let r = parse_citation(text);
    if r.is_some() {
        return r;
    }
    let r = parse_code(text);
    if r.is_some() {
        return r;
    }
    let r = parse_image(text);
    if r.is_some() {
        return r;
    }
    let r = parse_italic_text(text);
    if r.is_some() {
        return r;
    }
    let r = parse_link(text);
    if r.is_some() {
        return r;
    }
    let r = parse_no_textile(text);
    if r.is_some() {
        return r;
    }
    let r = parse_span(text);
    if r.is_some() {
        return r;
    }
    let r = parse_strikethrough_text(text);
    if r.is_some() {
        return r;
    }
    let r = parse_subscript_text(text);
    if r.is_some() {
        return r;
    }
    let r = parse_superscript_text(text);
    if r.is_some() {
        return r;
    }
    parse_underlined_text(text)
}

/// Tokenizes one line, left to right.
#[verifier::rlimit(100)]
fn tokenize_one(s: &str) -> (r: Vec<Inline>)
    ensures
        inlines_view(r@) == spec_line_tokens(s@, 0, 0),
    decreases s@.len(), 0int, 8int,
{
    let n = str_len(s);
    let mut tokens: Vec<Inline> = Vec::new();
    let mut pos: usize = 0;
    let mut start: usize = 0;
    proof {
        lemma_inlines_view(tokens@);
        assert(inlines_view(tokens@) + spec_line_tokens(s@, 0, 0) =~= spec_line_tokens(s@, 0, 0));
    }
    while pos < n
        invariant
            start <= pos <= n,
            n == s@.len(),
            spec_line_tokens(s@, 0, 0) == inlines_view(tokens@) + spec_line_tokens(
                s@,
                pos as int,
                start as int,
            ),
        decreases n - pos,
    {
        let suffix = substr(s, pos, n);
        let ghost pre = tokens@;
        match parse_inline_element(suffix) {
            Option::Some((node, t)) => {
                let ghost nodev = inline_view(node);
                if start < pos {
                    tokens.push(Inline::Text(substr_string(s, start, pos)));
                }
                tokens.push(node);
                proof {
                    lemma_inlines_view(pre);
                    lemma_inlines_view(tokens@);
                    assert(inlines_view(tokens@) =~= inlines_view(pre) + flush(s@.subrange(
                        start as int,
                        pos as int,
                    )) + seq![nodev]);
                    assert(spec_line_tokens(s@, pos as int, start as int) == flush(s@.subrange(
                        start as int,
                        pos as int,
                    )) + seq![nodev] + spec_line_tokens(s@, pos + t, pos + t));
                    assert(inlines_view(pre) + (flush(s@.subrange(start as int, pos as int))
                        + seq![nodev] + spec_line_tokens(s@, pos + t, pos + t)) =~= inlines_view(
                        tokens@,
                    ) + spec_line_tokens(s@, pos + t, pos + t));
                }
                pos = pos + t;
                start = pos;
            },
            Option::None => {
                pos = pos + 1;
            },
        }
    }
    if start < pos {
        let ghost pre = tokens@;
        tokens.push(Inline::Text(substr_string(s, start, pos)));
        proof {
            lemma_inlines_view(pre);
            lemma_inlines_view(tokens@);
            assert(inlines_view(tokens@) =~= inlines_view(pre) + flush(s@.subrange(
                start as int,
                pos as int,
            )));
        }
    }
    proof {
        if start < pos {
        } else {
            assert(flush(s@.subrange(start as int, pos as int)) =~= Seq::<InlineV>::empty());
        }
        assert(inlines_view(tokens@) =~= spec_line_tokens(s@, 0, 0));
    }
    tokens
}

/// Tokenizes the given logical lines into one ordered sequence of inline
/// elements.  Lines are scanned independently; a `Break` is placed
/// between consecutive lines unless the following line begins with a
/// space.
pub fn parse_inline_elements(lines: &[&str]) -> (r: Vec<Inline>)
    ensures
        inlines_view(r@) == spec_inline_elements(lines_view(lines@), 0),
    decreases lines_total(lines_view(lines@), 0), lines@.len(), 9int,
{
    let ghost lv = lines_view(lines@);
    let cnt = lines.len();
    let mut tokens: Vec<Inline> = Vec::new();
    let mut k: usize = 0;
    proof {
        lemma_inlines_view(tokens@);
        assert(inlines_view(tokens@) + spec_inline_elements(lv, 0) =~= spec_inline_elements(lv, 0));
    }
    while k < cnt
        invariant
            k <= cnt,
            cnt == lines@.len(),
            lv == lines_view(lines@),
            spec_inline_elements(lv, 0) == inlines_view(tokens@) + spec_inline_elements(
                lv,
                k as int,
            ),
        decreases cnt - k,
    {
        let ghost pre = tokens@;
        let line: &str = *vstd::slice::slice_index_get(lines, k);
        proof {
            lemma_lines_total(lv, 0);
            assert(line@ == lv[k as int]);
        }
        let mut lt = tokenize_one(line);
        let ghost ltv = lt@;
        tokens.append(&mut lt);
        let mut brk = false;
        if k + 1 < cnt {
            let next: &str = *vstd::slice::slice_index_get(lines, k + 1);
            let nl = str_len(next);
            if !(nl > 0 && char_at(next, 0) == ' ') {
                brk = true;
                tokens.push(Inline::Break);
            }
            proof {
                assert(next@ == lv[k + 1]);
            }
        }
        proof {
            lemma_inlines_view(pre);
            lemma_inlines_view(ltv);
            lemma_inlines_view(tokens@);
            let brkv: Seq<InlineV> = if brk {
                seq![InlineV::Break]
            } else {
                Seq::empty()
            };
            assert(inlines_view(tokens@) =~= inlines_view(pre) + inlines_view(ltv) + brkv);
            assert(spec_inline_elements(lv, k as int) == spec_line_tokens(lv[k as int], 0, 0)
                + brkv + spec_inline_elements(lv, k + 1));
            assert(inlines_view(pre) + (spec_line_tokens(lv[k as int], 0, 0) + brkv
                + spec_inline_elements(lv, k + 1)) =~= inlines_view(tokens@)
                + spec_inline_elements(lv, k + 1));
        }
        k = k + 1;
    }
    proof {
        assert(inlines_view(tokens@) + spec_inline_elements(lv, cnt as int) =~= inlines_view(
            tokens@,
        ));
    }
    tokens
}

} // verus!
