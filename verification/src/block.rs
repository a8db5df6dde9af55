//! The block dispatcher and the block recognisers.  Given the remaining
//! lines of input, an ordered set of recognisers is tried; each returns a
//! built block and the count of lines it covered.  A block marker has the
//! shape `tag attrs? mode `, where the mode is one dot (the block ends at
//! the first blank line) or two dots (the block runs until a line that
//! itself starts another block construct).  The paragraph recogniser
//! always succeeds, which makes the dispatcher total.

use vstd::prelude::*;
use vstd::string::StringExecFns;

use crate::ast::{
    Attribute, Attributes, AttrV, Block, BlockV, Inline, InlineV, attrs_view, block_view,
    blocks_view, inlines_view, lemma_blocks_view, lines_view, strings_view,
};
use crate::attributes::{parse_block_attributes, spec_block_attributes};
use crate::inline::{parse_inline_elements, spec_inline_elements};
use crate::list::spec_list;
use crate::text::{
    CharClass, char_at, char_in, char_in_class, digit_char, digit_value, find_in, join_nl,
    lemma_find_in, lemma_run_len_at, run_len, run_len_at, str_len, substr, substr_string,
    trim_trailing, whitespace_char,
};

verus! {

/// Length of the optional `:cite` part plus the final space of a block
/// marker, starting at `p`; 0 when neither a cite nor a space stands
/// there.  The cite form is preferred and requires a non-empty run of
/// non-space characters followed by a space.
pub open spec fn after_dots(s: Seq<char>, p: int, cite: bool) -> int {
    if cite && 0 <= p < s.len() && s[p] == ':' {
        let cl = run_len_at(s, p + 1, CharClass::NonSpace);
        if cl >= 1 && p + 1 + cl < s.len() && s[p + 1 + cl] == ' ' {
            1 + cl + 1
        } else {
            0
        }
    } else if 0 <= p < s.len() && s[p] == ' ' {
        1
    } else {
        0
    }
}

/// Length of the whole mode tail of a block marker starting at `e`: one
/// or two dots, the optional cite, and the final space; 0 when no tail
/// starts there.  Two dots are preferred over one.
pub open spec fn dots_tail_len(s: Seq<char>, e: int, cite: bool) -> int {
    if 0 <= e && e + 1 < s.len() && s[e] == '.' && s[e + 1] == '.' && after_dots(s, e + 2, cite)
        > 0 {
        2 + after_dots(s, e + 2, cite)
    } else if 0 <= e < s.len() && s[e] == '.' && after_dots(s, e + 1, cite) > 0 {
        1 + after_dots(s, e + 1, cite)
    } else {
        0
    }
}

/// The number of mode dots of the tail at `e`.
pub open spec fn dots_count(s: Seq<char>, e: int, cite: bool) -> int {
    if 0 <= e && e + 1 < s.len() && s[e] == '.' && s[e + 1] == '.' && after_dots(s, e + 2, cite)
        > 0 {
        2
    } else {
        1
    }
}

/// The cite URL of the tail at `e`; empty when the tail carries none.
pub open spec fn tail_cite(s: Seq<char>, e: int, cite: bool) -> Seq<char> {
    let d = dots_count(s, e, cite);
    if cite && e + d < s.len() && s[e + d] == ':' {
        s.subrange(e + d + 1, e + d + 1 + run_len_at(s, e + d + 1, CharClass::NonSpace))
    } else {
        Seq::empty()
    }
}

/// The end of the lazily-matched attribute part of a block marker: the
/// smallest position at or after `e` where a mode tail begins; the length
/// of the string plus one when there is none.
pub open spec fn marker_end(s: Seq<char>, e: int, cite: bool) -> int
    decreases s.len() - e,
{
    if e < 0 || e > s.len() {
        s.len() as int + 1
    } else if dots_tail_len(s, e, cite) > 0 {
        e
    } else if e >= s.len() {
        s.len() as int + 1
    } else {
        marker_end(s, e + 1, cite)
    }
}

/// The largest position at or after `from` where a dot directly followed
/// by a space stands; -1 when there is none.  This is the greedy
/// attribute match of the heading and paragraph markers.
pub open spec fn last_dot_space(s: Seq<char>, from: int) -> int
    decreases s.len(),
{
    if s.len() < 2 || s.len() - 2 < from {
        -1
    } else if s[s.len() - 2] == '.' && s[s.len() - 1] == ' ' {
        s.len() - 2
    } else {
        last_dot_space(s.drop_last(), from)
    }
}

/// What `last_dot_space` returns is the last such position.
pub broadcast proof fn lemma_last_dot_space(s: Seq<char>, from: int)
    requires
        from >= 0,
    ensures
        -1 <= #[trigger] last_dot_space(s, from),
        last_dot_space(s, from) >= 0 ==> {
            let e = last_dot_space(s, from);
            from <= e && e <= s.len() - 2 && s[e] == '.' && s[e + 1] == ' '
        },
    decreases s.len(),
{
    if !(s.len() < 2 || s.len() - 2 < from) && !(s[s.len() - 2] == '.' && s[s.len() - 1] == ' ') {
        lemma_last_dot_space(s.drop_last(), from);
        assert(forall|j: int| 0 <= j < s.len() - 1 ==> s.drop_last()[j] == s[j]);
    }
}

/// The first blank line at or after `i`; the number of lines when there
/// is none.
pub open spec fn first_blank(lines: Seq<Seq<char>>, i: int) -> int
    decreases lines.len() - i,
{
    if i < 0 || i >= lines.len() {
        lines.len() as int
    } else if lines[i].len() == 0 {
        i
    } else {
        first_blank(lines, i + 1)
    }
}

/// What `first_blank` returns is the first blank line.
pub broadcast proof fn lemma_first_blank(lines: Seq<Seq<char>>, i: int)
    requires
        0 <= i <= lines.len(),
    ensures
        i <= #[trigger] first_blank(lines, i) <= lines.len(),
        first_blank(lines, i) < lines.len() ==> lines[first_blank(lines, i)].len() == 0,
    decreases lines.len() - i,
{
    if i < lines.len() && lines[i].len() != 0 {
        lemma_first_blank(lines, i + 1);
    }
}

/// The first non-blank line at or after `i`; the number of lines when
/// there is none.
pub open spec fn first_nonblank(lines: Seq<Seq<char>>, i: int) -> int
    decreases lines.len() - i,
{
    if i < 0 || i >= lines.len() {
        lines.len() as int
    } else if lines[i].len() > 0 {
        i
    } else {
        first_nonblank(lines, i + 1)
    }
}

/// What `first_nonblank` returns is the first non-blank line.
pub broadcast proof fn lemma_first_nonblank(lines: Seq<Seq<char>>, i: int)
    requires
        0 <= i <= lines.len(),
    ensures
        i <= #[trigger] first_nonblank(lines, i) <= lines.len(),
        first_nonblank(lines, i) < lines.len() ==> lines[first_nonblank(lines, i)].len() > 0,
    decreases lines.len() - i,
{
    if i < lines.len() && lines[i].len() == 0 {
        lemma_first_nonblank(lines, i + 1);
    }
}

/// The lines a single-line-mode block covers beyond its marker line: all
/// following lines up to the first blank one.  The covered count includes
/// the terminating blank line, so the outer cursor lands past it.
pub open spec fn single_mode_extent(lines: Seq<Seq<char>>) -> int {
    let fb = first_blank(lines, 1);
    if fb < lines.len() {
        fb + 1
    } else {
        lines.len() as int
    }
}

/// The body lines of a single-line-mode block: the marker line's residue
/// followed by the lines up to the first blank one.
pub open spec fn single_mode_strings(lines: Seq<Seq<char>>, residue: Seq<char>) -> Seq<Seq<char>> {
    seq![residue] + lines.subrange(1, first_blank(lines, 1))
}

/// Whether a probed line, parsed as a block on its own, ends a
/// multi-line-mode block: every construct does except a paragraph without
/// an explicit `p.` marker.
pub open spec fn probe_stops(line: Seq<char>) -> bool
    decreases 2int, 10int, 0int,
{
    match spec_block(seq![line]).0 {
        BlockV::Paragraph { starts_with_p, .. } => starts_with_p,
        _ => true,
    }
}

/// The end of a multi-line-mode block's body: the first line that follows
/// a blank line and itself starts another block construct; the number of
/// lines when there is none.
pub open spec fn multi_mode_end(lines: Seq<Seq<char>>, i: int) -> int
    decreases lines.len(), 11int, lines.len() - i,
{
    if i < 1 || i >= lines.len() {
        lines.len() as int
    } else if lines[i - 1].len() == 0 && 1 < lines.len() && probe_stops(lines[i]) {
        i
    } else {
        multi_mode_end(lines, i + 1)
    }
}

/// The bounds of `multi_mode_end`.
pub broadcast proof fn lemma_multi_mode_end(lines: Seq<Seq<char>>, i: int)
    requires
        1 <= i <= lines.len(),
    ensures
        i <= #[trigger] multi_mode_end(lines, i) <= lines.len(),
    decreases lines.len() - i,
{
    if i < lines.len() && !(lines[i - 1].len() == 0 && 1 < lines.len() && probe_stops(lines[i])) {
        lemma_multi_mode_end(lines, i + 1);
    }
}

/// The body lines of a multi-line-mode block: the marker line's residue
/// followed by the lines up to the one that starts the next block.
pub open spec fn multi_mode_strings(lines: Seq<Seq<char>>, residue: Seq<char>) -> Seq<Seq<char>>
    decreases lines.len(), 12int, 0int,
{
    seq![residue] + lines.subrange(1, multi_mode_end(lines, 1))
}

/// The block quotation recogniser: marker `bq`, lazy attributes, one or
/// two dots, an optional `:cite`, and a space.  Its single-dot body is one
/// paragraph; its double-dot body is re-split into paragraphs.  Either
/// way the children carry the quotation's own attributes.
pub open spec fn spec_block_quotation(lines: Seq<Seq<char>>) -> Option<(BlockV, int)>
    decreases lines.len(), 20int, 0int,
{
    if lines.len() == 0 {
        None
    } else {
        let s = lines[0];
        if s.len() >= 2 && s[0] == 'b' && s[1] == 'q' && marker_end(s, 2, true) <= s.len() {
            let e = marker_end(s, 2, true);
            let d = dots_count(s, e, true);
            let attrs = spec_block_attributes(s.subrange(2, e));
            let cite = tail_cite(s, e, true);
            let residue = s.subrange(e + dots_tail_len(s, e, true), s.len() as int);
            if d == 1 {
                let strings = single_mode_strings(lines, residue);
                let child = BlockV::Paragraph {
                    attributes: attrs,
                    elements: spec_inline_elements(strings, 0),
                    starts_with_p: false,
                };
                Some(
                    (
                        BlockV::BlockQuotation { attributes: attrs, cite, elements: seq![child] },
                        single_mode_extent(lines),
                    ),
                )
            } else {
                let strings = multi_mode_strings(lines, residue);
                let children = spec_paragraphs(strings, 0, attrs);
                Some(
                    (
                        BlockV::BlockQuotation { attributes: attrs, cite, elements: children },
                        multi_mode_end(lines, 1),
                    ),
                )
            }
        } else {
            None
        }
    }
}

/// The paragraphs of a double-dot quotation body: paragraph recognition
/// is applied repeatedly over the captured lines, and each paragraph
/// receives the given attributes in place of its own.
pub open spec fn spec_paragraphs(strings: Seq<Seq<char>>, pos: int, attrs: Seq<AttrV>) -> Seq<
    BlockV,
>
    decreases strings.len() - pos,
{
    if pos < 0 || pos >= strings.len() {
        Seq::empty()
    } else {
        let sub = strings.subrange(pos, strings.len() as int);
        let (p, c) = spec_paragraph(sub);
        let stamped = match p {
            BlockV::Paragraph { elements, starts_with_p, .. } => BlockV::Paragraph {
                attributes: attrs,
                elements,
                starts_with_p,
            },
            other => other,
        };
        let adv = if c < 1 {
            1
        } else if c > strings.len() - pos {
            strings.len() - pos
        } else {
            c
        };
        seq![stamped] + spec_paragraphs(strings, pos + adv, attrs)
    }
}

/// The code block recogniser: marker `bc`, lazy attributes, one or two
/// dots, and a space.  The body is joined with newlines, trailing
/// whitespace is trimmed, and the content is never re-parsed.
pub open spec fn spec_code_block(lines: Seq<Seq<char>>) -> Option<(BlockV, int)>
    decreases lines.len(), 20int, 0int,
{
    if lines.len() == 0 {
        None
    } else {
        let s = lines[0];
        if s.len() >= 2 && s[0] == 'b' && s[1] == 'c' && marker_end(s, 2, false) <= s.len() {
            let e = marker_end(s, 2, false);
            let d = dots_count(s, e, false);
            let attrs = spec_block_attributes(s.subrange(2, e));
            let residue = s.subrange(e + dots_tail_len(s, e, false), s.len() as int);
            let (strings, consumed) = if d == 1 {
                (single_mode_strings(lines, residue), single_mode_extent(lines))
            } else {
                (multi_mode_strings(lines, residue), multi_mode_end(lines, 1))
            };
            Some(
                (
                    BlockV::CodeBlock { attributes: attrs, code: trim_trailing(join_nl(strings)) },
                    consumed,
                ),
            )
        } else {
            None
        }
    }
}

/// The comment recogniser: marker `###`, no attributes, one or two dots,
/// and a space.  The body is kept as raw lines and renders to nothing.
pub open spec fn spec_comment(lines: Seq<Seq<char>>) -> Option<(BlockV, int)>
    decreases lines.len(), 20int, 0int,
{
    if lines.len() == 0 {
        None
    } else {
        let s = lines[0];
        if s.len() >= 3 && s[0] == '#' && s[1] == '#' && s[2] == '#' && dots_tail_len(s, 3, false)
            > 0 {
            let d = dots_count(s, 3, false);
            let residue = s.subrange(3 + dots_tail_len(s, 3, false), s.len() as int);
            let (strings, consumed) = if d == 1 {
                (single_mode_strings(lines, residue), single_mode_extent(lines))
            } else {
                (multi_mode_strings(lines, residue), multi_mode_end(lines, 1))
            };
            Some((BlockV::Comment(strings), consumed))
        } else {
            None
        }
    }
}

/// The heading recogniser: marker `h1`..`h6`, greedy attributes, one dot
/// and a space; the body runs to the first blank line.
pub open spec fn spec_heading(lines: Seq<Seq<char>>) -> Option<(BlockV, int)> {
    if lines.len() == 0 {
        None
    } else {
        let s = lines[0];
        if s.len() >= 2 && s[0] == 'h' && digit_char(s[1]) && 1 <= digit_value(s[1]) <= 6
            && last_dot_space(s, 2) >= 2 {
            let e = last_dot_space(s, 2);
            let attrs = spec_block_attributes(s.subrange(2, e));
            let residue = s.subrange(e + 2, s.len() as int);
            let strings = single_mode_strings(lines, residue);
            Some(
                (
                    BlockV::Heading {
                        attributes: attrs,
                        elements: spec_inline_elements(strings, 0),
                        level: digit_value(s[1]) as u8,
                    },
                    single_mode_extent(lines),
                ),
            )
        } else {
            None
        }
    }
}

/// The disabled-formatting recogniser: marker `notextile`, no attributes,
/// one or two dots, and a space.  The body is kept verbatim.
pub open spec fn spec_no_textile_block(lines: Seq<Seq<char>>) -> Option<(BlockV, int)>
    decreases lines.len(), 20int, 0int,
{
    if lines.len() == 0 {
        None
    } else {
        let s = lines[0];
        if s.len() >= 9 && s.subrange(0, 9) == "notextile"@ && dots_tail_len(s, 9, false) > 0 {
            let d = dots_count(s, 9, false);
            let residue = s.subrange(9 + dots_tail_len(s, 9, false), s.len() as int);
            let (strings, consumed) = if d == 1 {
                (single_mode_strings(lines, residue), single_mode_extent(lines))
            } else {
                (multi_mode_strings(lines, residue), multi_mode_end(lines, 1))
            };
            Some((BlockV::NoTextileBlock(strings), consumed))
        } else {
            None
        }
    }
}

/// The pre-formatted block recogniser: marker `pre`, lazy attributes, one
/// or two dots, and a space.  The body is kept as verbatim lines.
pub open spec fn spec_pre_block(lines: Seq<Seq<char>>) -> Option<(BlockV, int)>
    decreases lines.len(), 20int, 0int,
{
    if lines.len() == 0 {
        None
    } else {
        let s = lines[0];
        if s.len() >= 3 && s[0] == 'p' && s[1] == 'r' && s[2] == 'e' && marker_end(s, 3, false)
            <= s.len() {
            let e = marker_end(s, 3, false);
            let d = dots_count(s, e, false);
            let attrs = spec_block_attributes(s.subrange(3, e));
            let residue = s.subrange(e + dots_tail_len(s, e, false), s.len() as int);
            let (strings, consumed) = if d == 1 {
                (single_mode_strings(lines, residue), single_mode_extent(lines))
            } else {
                (multi_mode_strings(lines, residue), multi_mode_end(lines, 1))
            };
            Some((BlockV::Pre { attributes: attrs, lines: strings }, consumed))
        } else {
            None
        }
    }
}

/// The paragraph recogniser: an optional marker `p`, greedy attributes,
/// one dot and a space; bare text is a paragraph without the explicit
/// marker.  The body runs to the first blank line.  This recogniser
/// always succeeds, which makes the dispatcher total.
pub open spec fn spec_paragraph(lines: Seq<Seq<char>>) -> (BlockV, int) {
    if lines.len() == 0 {
        (
            BlockV::Paragraph {
                attributes: spec_block_attributes(Seq::empty()),
                elements: Seq::empty(),
                starts_with_p: false,
            },
            1,
        )
    } else {
        let s = lines[0];
        let explicit = s.len() >= 1 && s[0] == 'p' && last_dot_space(s, 1) >= 1;
        let e = last_dot_space(s, 1);
        let attrs_str = if explicit {
            s.subrange(1, e)
        } else {
            Seq::empty()
        };
        let residue = if explicit {
            s.subrange(e + 2, s.len() as int)
        } else {
            s
        };
        let strings = single_mode_strings(lines, residue);
        (
            BlockV::Paragraph {
                attributes: spec_block_attributes(attrs_str),
                elements: spec_inline_elements(strings, 0),
                starts_with_p: explicit,
            },
            single_mode_extent(lines),
        )
    }
}

/// One dispatch step: leading blank lines are skipped, the recognisers
/// are tried in their fixed order on the remaining lines, and the covered
/// count accounts for the skipped blanks, so that a full dispatch pass
/// covers its input exactly.  The dispatch is total: the paragraph
/// recogniser catches whatever the others refuse.
pub open spec fn spec_block(lines: Seq<Seq<char>>) -> (BlockV, int)
    decreases lines.len(), 30int, 0int,
{
    let sk0 = first_nonblank(lines, 0);
    let sk = if sk0 < lines.len() {
        sk0
    } else {
        0
    };
    let sub = lines.subrange(if 0 <= sk <= lines.len() { sk } else { 0 }, lines.len() as int);
    let (b, c) = spec_block_sub(sub);
    (b, sk + c)
}

/// The dispatch over the lines once leading blanks are gone.
pub open spec fn spec_block_sub(sub: Seq<Seq<char>>) -> (BlockV, int)
    decreases sub.len(), 25int, 0int,
{
    if spec_block_quotation(sub) is Some {
        spec_block_quotation(sub)->Some_0
    } else if spec_code_block(sub) is Some {
        spec_code_block(sub)->Some_0
    } else if spec_comment(sub) is Some {
        spec_comment(sub)->Some_0
    } else if spec_heading(sub) is Some {
        spec_heading(sub)->Some_0
    } else if spec_no_textile_block(sub) is Some {
        spec_no_textile_block(sub)->Some_0
    } else if spec_pre_block(sub) is Some {
        spec_pre_block(sub)->Some_0
    } else if spec_list(sub) is Some {
        spec_list(sub)->Some_0
    } else {
        spec_paragraph(sub)
    }
}

/// The document: the dispatcher applied repeatedly from the given line on.
pub open spec fn spec_blocks(lines: Seq<Seq<char>>, from: int) -> Seq<BlockV>
    decreases lines.len() - from,
{
    if from < 0 || from >= lines.len() {
        Seq::empty()
    } else {
        let (b, c) = spec_block(lines.subrange(from, lines.len() as int));
        let adv = if c < 1 {
            1
        } else if c > lines.len() - from {
            lines.len() - from
        } else {
            c
        };
        seq![b] + spec_blocks(lines, from + adv)
    }
}

/// The number of lines the dispatch steps of the document cover in all,
/// starting at the given line.
pub open spec fn dispatch_sum(lines: Seq<Seq<char>>, from: int) -> int
    decreases lines.len() - from,
{
    if from < 0 || from >= lines.len() {
        0
    } else {
        let (b, c) = spec_block(lines.subrange(from, lines.len() as int));
        let adv = if c < 1 {
            1
        } else if c > lines.len() - from {
            lines.len() - from
        } else {
            c
        };
        adv + dispatch_sum(lines, from + adv)
    }
}

/// Exact coverage: the covered counts of the document's dispatch steps
/// sum exactly to the number of remaining lines, with no overlap and no
/// skipped content.  Together with `lemma_dispatch_total`, which shows
/// that every step's own count already lies between one and the number
/// of remaining lines, this is the totality of the parser.
pub proof fn lemma_blocks_cover(lines: Seq<Seq<char>>, from: int)
    requires
        0 <= from <= lines.len(),
    ensures
        dispatch_sum(lines, from) == lines.len() - from,
    decreases lines.len() - from,
{
    if from < lines.len() {
        let sub = lines.subrange(from, lines.len() as int);
        lemma_dispatch_total(sub);
        let (b, c) = spec_block(sub);
        lemma_blocks_cover(lines, from + c);
    }
}

/// Totality of the dispatch: on any non-empty line stream some block is
/// recognised, and it covers at least one and at most all of the lines.
/// The driver therefore advances by exactly the covered count at every
/// step, never stalls, never overshoots, and the covered counts of a full
/// pass sum exactly to the number of lines.
pub proof fn lemma_dispatch_total(lines: Seq<Seq<char>>)
    requires
        lines.len() >= 1,
    ensures
        1 <= spec_block(lines).1 <= lines.len(),
{
    lemma_first_nonblank(lines, 0);
    let sk0 = first_nonblank(lines, 0);
    let sk = if sk0 < lines.len() {
        sk0
    } else {
        0
    };
    let sub = lines.subrange(sk, lines.len() as int);
    lemma_block_sub_total(sub);
}

/// Totality of the dispatch once leading blanks are gone.
pub proof fn lemma_block_sub_total(sub: Seq<Seq<char>>)
    requires
        sub.len() >= 1,
    ensures
        1 <= spec_block_sub(sub).1 <= sub.len(),
{
    lemma_first_blank(sub, 0);
    lemma_first_blank(sub, 1);
    lemma_multi_mode_end(sub, 1);
    if spec_block_quotation(sub) is Some {
    } else if spec_code_block(sub) is Some {
    } else if spec_comment(sub) is Some {
    } else if spec_heading(sub) is Some {
    } else if spec_no_textile_block(sub) is Some {
    } else if spec_pre_block(sub) is Some {
    } else if spec_list(sub) is Some {
    } else {
    }
}

/// Whether an executable block recognition result agrees with its
/// specification.
pub open spec fn block_recognised(
    r: Option<(Block, usize)>,
    sp: Option<(BlockV, int)>,
    n: int,
) -> bool {
    match (r, sp) {
        (Option::Some((node, t)), Option::Some((nv, st))) => block_view(node) == nv && t as int
            == st && 1 <= st <= n,
        (Option::None, Option::None) => true,
        _ => false,
    }
}

/// The length of the optional cite part plus the final space, executably.
fn after_dots_exec(s: &str, p: usize, cite: bool) -> (l: usize)
    requires
        p <= s@.len(),
    ensures
        l == after_dots(s@, p as int, cite),
{
    let n = str_len(s);
    if cite && p < n && char_at(s, p) == ':' {
        let cl = run_len(s, p + 1, CharClass::NonSpace);
        if cl >= 1 && p + 1 + cl < n && char_at(s, p + 1 + cl) == ' ' {
            1 + cl + 1
        } else {
            0
        }
    } else if p < n && char_at(s, p) == ' ' {
        1
    } else {
        0
    }
}

/// The length of the mode tail at `e`, executably.
fn tail_len_exec(s: &str, e: usize, cite: bool) -> (l: usize)
    requires
        e <= s@.len(),
    ensures
        l == dots_tail_len(s@, e as int, cite),
{
    let n = str_len(s);
    if e < n && n - e > 1 && char_at(s, e) == '.' && char_at(s, e + 1) == '.' && after_dots_exec(
        s,
        e + 2,
        cite,
    ) > 0 {
        2 + after_dots_exec(s, e + 2, cite)
    } else if e < n && char_at(s, e) == '.' && after_dots_exec(s, e + 1, cite) > 0 {
        1 + after_dots_exec(s, e + 1, cite)
    } else {
        0
    }
}

/// The number of mode dots at `e`, executably.
fn dots_count_exec(s: &str, e: usize, cite: bool) -> (d: usize)
    requires
        e <= s@.len(),
    ensures
        d == dots_count(s@, e as int, cite),
        d == 1 || d == 2,
{
    let n = str_len(s);
    if e < n && n - e > 1 && char_at(s, e) == '.' && char_at(s, e + 1) == '.' && after_dots_exec(
        s,
        e + 2,
        cite,
    ) > 0 {
        2
    } else {
        1
    }
}

/// The cite URL of the tail at `e`, executably.
fn tail_cite_exec(s: &str, e: usize, cite: bool) -> (r: String)
    requires
        e <= s@.len(),
    ensures
        r@ == tail_cite(s@, e as int, cite),
{
    let n = str_len(s);
    let d = dots_count_exec(s, e, cite);
    if cite && e < n && n - e > d && char_at(s, e + d) == ':' {
        let cl = run_len(s, e + d + 1, CharClass::NonSpace);
        substr_string(s, e + d + 1, e + d + 1 + cl)
    } else {
        String::new()
    }
}

/// The end of the lazily-matched attribute part, executably; `None` when
/// the line carries no marker tail.
fn marker_end_exec(s: &str, from: usize, cite: bool) -> (r: Option<usize>)
    requires
        from <= s@.len(),
    ensures
        r is Some <==> marker_end(s@, from as int, cite) <= s@.len(),
        r is Some ==> r->Some_0 == marker_end(s@, from as int, cite) && from <= r->Some_0
            <= s@.len() && dots_tail_len(s@, r->Some_0 as int, cite) > 0,
{
    let n = str_len(s);
    let mut e: usize = from;
    while e < n && tail_len_exec(s, e, cite) == 0
        invariant
            from <= e <= n,
            n == s@.len(),
            marker_end(s@, from as int, cite) == marker_end(s@, e as int, cite),
        decreases n - e,
    {
        e = e + 1;
    }
    if e == n && tail_len_exec(s, e, cite) == 0 {
        None
    } else {
        Some(e)
    }
}

/// The largest dot-space position at or after `from`; the string length
/// stands for none, executably.
fn last_dot_space_exec(s: &str, from: usize) -> (r: usize)
    requires
        from <= s@.len(),
    ensures
        last_dot_space(s@, from as int) >= 0 ==> r == last_dot_space(s@, from as int),
        last_dot_space(s@, from as int) < 0 ==> r == s@.len(),
        r <= s@.len(),
{
    let n = str_len(s);
    let mut k: usize = n;
    proof {
        assert(s@.subrange(0, n as int) =~= s@);
    }
    while k >= 2 && k - 2 >= from
        invariant
            k <= n,
            n == s@.len(),
            last_dot_space(s@, from as int) == last_dot_space(s@.subrange(0, k as int), from as int),
        decreases k,
    {
        proof {
            assert(s@.subrange(0, k as int).drop_last() =~= s@.subrange(0, k - 1));
            assert(s@.subrange(0, k as int).last() == s@[k - 1]);
        }
        if char_at(s, k - 2) == '.' && char_at(s, k - 1) == ' ' {
            proof {
                assert(last_dot_space(s@.subrange(0, k as int), from as int) == k - 2);
            }
            return k - 2;
        }
        k = k - 1;
    }
    proof {
        assert(last_dot_space(s@.subrange(0, k as int), from as int) == -1);
    }
    n
}

/// The first blank line at or after `i`, executably.
pub(crate) fn first_blank_exec(lines: &[&str], i: usize) -> (r: usize)
    requires
        i <= lines@.len(),
    ensures
        r == first_blank(lines_view(lines@), i as int),
        i <= r <= lines@.len(),
{
    proof {
        lemma_first_blank(lines_view(lines@), i as int);
    }
    let n = lines.len();
    let mut k: usize = i;
    while k < n && str_len(*vstd::slice::slice_index_get(lines, k)) > 0
        invariant
            i <= k <= n,
            n == lines@.len(),
            first_blank(lines_view(lines@), i as int) == first_blank(lines_view(lines@), k as int),
        decreases n - k,
    {
        k = k + 1;
    }
    k
}

/// The first non-blank line at or after `i`, executably.
fn first_nonblank_exec(lines: &[&str], i: usize) -> (r: usize)
    requires
        i <= lines@.len(),
    ensures
        r == first_nonblank(lines_view(lines@), i as int),
        i <= r <= lines@.len(),
{
    proof {
        lemma_first_nonblank(lines_view(lines@), i as int);
    }
    let n = lines.len();
    let mut k: usize = i;
    while k < n && str_len(*vstd::slice::slice_index_get(lines, k)) == 0
        invariant
            i <= k <= n,
            n == lines@.len(),
            first_nonblank(lines_view(lines@), i as int) == first_nonblank(
                lines_view(lines@),
                k as int,
            ),
        decreases n - k,
    {
        k = k + 1;
    }
    k
}

/// Borrows the collected body lines for the inline tokenizer.
pub(crate) fn as_str_vec(v: &Vec<String>) -> (r: Vec<&str>)
    ensures
        lines_view(r@) == strings_view(v@),
{
    let mut r: Vec<&str> = Vec::new();
    let mut i: usize = 0;
    while i < v.len()
        invariant
            i <= v@.len(),
            r@.len() == i,
            forall|j: int| 0 <= j < i ==> r@[j]@ == v@[j]@,
        decreases v@.len() - i,
    {
        r.push(v[i].as_str());
        i = i + 1;
    }
    proof {
        assert(lines_view(r@) =~= strings_view(v@));
    }
    r
}

/// Joins the body lines with newlines, executably.
pub(crate) fn join_lines(v: &Vec<String>) -> (r: String)
    ensures
        r@ == join_nl(strings_view(v@)),
{
    let mut r = String::new();
    let mut i: usize = 0;
    let ghost sv = strings_view(v@);
    while i < v.len()
        invariant
            i <= v@.len(),
            sv == strings_view(v@),
            r@ == join_nl(sv.subrange(0, i as int)),
            i == 0 ==> r@.len() == 0,
        decreases v@.len() - i,
    {
        let ghost pre = r@;
        if i > 0 {
            r.append("\n");
        }
        r.append(v[i].as_str());
        proof {
            assert(sv.subrange(0, i + 1).drop_last() =~= sv.subrange(0, i as int));
            assert(sv.subrange(0, i + 1).last() == sv[i as int]);
            if i == 0 {
                assert(join_nl(sv.subrange(0, 1)) == sv[0]);
                assert(r@ =~= sv[0]);
            } else {
                assert(join_nl(sv.subrange(0, i + 1)) == join_nl(sv.subrange(0, i as int))
                    + seq!['\n'] + sv[i as int]);
                reveal_strlit("\n");
                assert(r@ =~= pre + "\n"@ + sv[i as int]);
                assert("\n"@ =~= seq!['\n']);
            }
        }
        i = i + 1;
    }
    proof {
        assert(sv.subrange(0, sv.len() as int) =~= sv);
        if v@.len() == 0 {
            assert(join_nl(sv) =~= Seq::<char>::empty());
        }
    }
    r
}

/// A deep copy of an attribute.
fn clone_attribute(a: &Attribute) -> (r: Attribute)
    ensures
        crate::ast::attr_view(r) == crate::ast::attr_view(*a),
{
    match a {
        Attribute::Class(cs) => {
            let mut v: Vec<String> = Vec::new();
            let mut i: usize = 0;
            while i < cs.len()
                invariant
                    i <= cs@.len(),
                    v@.len() == i,
                    forall|j: int| 0 <= j < i ==> v@[j]@ == cs@[j]@,
                decreases cs@.len() - i,
            {
                v.push(cs[i].clone());
                i = i + 1;
            }
            proof {
                assert(strings_view(v@) =~= strings_view(cs@));
            }
            Attribute::Class(v)
        },
        Attribute::Id(s) => Attribute::Id(s.clone()),
        Attribute::Language(s) => Attribute::Language(s.clone()),
        Attribute::Align(s) => Attribute::Align(s.clone()),
        Attribute::Style(ps) => {
            let mut v: Vec<(String, String)> = Vec::new();
            let mut i: usize = 0;
            while i < ps.len()
                invariant
                    i <= ps@.len(),
                    v@.len() == i,
                    forall|j: int| 0 <= j < i ==> v@[j].0@ == ps@[j].0@ && v@[j].1@ == ps@[j].1@,
                decreases ps@.len() - i,
            {
                v.push((ps[i].0.clone(), ps[i].1.clone()));
                i = i + 1;
            }
            proof {
                assert(crate::ast::style_view(v@) =~= crate::ast::style_view(ps@));
            }
            Attribute::Style(v)
        },
    }
}

/// A deep copy of an attribute list.
fn clone_attributes(a: &Attributes) -> (r: Attributes)
    ensures
        attrs_view(r@) == attrs_view(a@),
{
    let mut r: Attributes = Vec::new();
    let mut i: usize = 0;
    while i < a.len()
        invariant
            i <= a@.len(),
            r@.len() == i,
            forall|j: int|
                0 <= j < i ==> #[trigger] crate::ast::attr_view(r@[j]) == crate::ast::attr_view(
                    a@[j],
                ),
        decreases a@.len() - i,
    {
        r.push(clone_attribute(&a[i]));
        i = i + 1;
    }
    proof {
        assert(attrs_view(r@) =~= attrs_view(a@));
    }
    r
}

/// The end of a multi-line-mode body, executably: each line that follows
/// a blank one is probed as a block of its own.
fn multi_mode_scan(lines: &[&str]) -> (m: usize)
    requires
        lines@.len() >= 1,
    ensures
        m == multi_mode_end(lines_view(lines@), 1),
        1 <= m <= lines@.len(),
    decreases lines@.len(), 11int, 0int,
{
    let ghost lv = lines_view(lines@);
    let n = lines.len();
    let mut i: usize = 1;
    while i < n
        invariant
            1 <= i <= n,
            n == lines@.len(),
            lv == lines_view(lines@),
            multi_mode_end(lv, 1) == multi_mode_end(lv, i as int),
        decreases n - i,
    {
        let prev: &str = *vstd::slice::slice_index_get(lines, i - 1);
        if str_len(prev) == 0 {
            let line: &str = *vstd::slice::slice_index_get(lines, i);
            let mut one: Vec<&str> = Vec::new();
            one.push(line);
            proof {
                assert(lines_view(one@) =~= seq![lv[i as int]]);
            }
            let probe = parse_block(one.as_slice());
            let stops = match probe {
                Option::Some((Block::Paragraph { starts_with_p, .. }, _)) => starts_with_p,
                Option::Some(_) => true,
                Option::None => true,
            };
            proof {
                assert(stops == probe_stops(lv[i as int]));
            }
            if stops {
                return i;
            }
        }
        i = i + 1;
    }
    n
}

/// The body lines and the covered count of a marker block in the given
/// mode, executably.
fn block_extent(lines: &[&str], d: usize, residue: String) -> (r: (Vec<String>, usize))
    requires
        lines@.len() >= 1,
        d == 1 || d == 2,
    ensures
        d == 1 ==> strings_view(r.0@) == single_mode_strings(lines_view(lines@), residue@)
            && r.1 == single_mode_extent(lines_view(lines@)),
        d == 2 ==> strings_view(r.0@) == multi_mode_strings(lines_view(lines@), residue@)
            && r.1 == multi_mode_end(lines_view(lines@), 1),
        1 <= r.1 <= lines@.len(),
    decreases lines@.len(), 15int, 0int,
{
    let ghost lv = lines_view(lines@);
    let n = lines.len();
    let ghost resv = residue@;
    let (stop, consumed) = if d == 1 {
        let fb = first_blank_exec(lines, 1);
        let c = if fb < n {
            fb + 1
        } else {
            n
        };
        (fb, c)
    } else {
        let m = multi_mode_scan(lines);
        (m, m)
    };
    proof {
        if d == 1 {
            lemma_first_blank(lv, 1);
        }
    }
    let mut strings: Vec<String> = Vec::new();
    strings.push(residue);
    let mut i: usize = 1;
    while i < stop
        invariant
            1 <= i,
            i <= stop || i == 1,
            stop <= n,
            n == lines@.len(),
            lv == lines_view(lines@),
            strings@.len() == i,
            strings@[0]@ == resv,
            forall|j: int| 1 <= j < i ==> strings@[j]@ == lv[j],
        decreases n - i,
    {
        let line: &str = *vstd::slice::slice_index_get(lines, i);
        strings.push(String::from_str(line));
        i = i + 1;
    }
    proof {
        if d == 1 {
            assert(strings_view(strings@) =~= single_mode_strings(lv, resv));
        } else {
            assert(strings_view(strings@) =~= multi_mode_strings(lv, resv));
        }
    }
    (strings, consumed)
}

/// Recognises a block quotation.
#[verifier::rlimit(100)]
pub fn parse_block_quotation(lines: &[&str]) -> (r: Option<(Block, usize)>)
    requires
        lines@.len() >= 1,
    ensures
        block_recognised(r, spec_block_quotation(lines_view(lines@)), lines@.len() as int),
    decreases lines@.len(), 20int, 0int,
{
    let ghost lv = lines_view(lines@);
    let s: &str = *vstd::slice::slice_index_get(lines, 0);
    let n = str_len(s);
    if !(n >= 2 && char_at(s, 0) == 'b' && char_at(s, 1) == 'q') {
        return None;
    }
    let e = match marker_end_exec(s, 2, true) {
        Option::Some(e) => e,
        Option::None => {
            return None;
        },
    };
    let tl = tail_len_exec(s, e, true);
    let d = dots_count_exec(s, e, true);
    let attributes = parse_block_attributes(substr(s, 2, e));
    let cite = tail_cite_exec(s, e, true);
    proof {
        assert(e + tl <= n) by {
            assert(dots_tail_len(s@, e as int, true) > 0);
        }
    }
    let residue = substr_string(s, e + tl, n);
    if d == 1 {
        let (strings, consumed) = block_extent(lines, 1, residue);
        let strs = as_str_vec(&strings);
        let elements = parse_inline_elements(strs.as_slice());
        let p_attrs = clone_attributes(&attributes);
        let child = Block::Paragraph { attributes: p_attrs, elements, starts_with_p: false };
        let ghost childv = block_view(child);
        let mut children: Vec<Block> = Vec::new();
        children.push(child);
        let node = Block::BlockQuotation { attributes, cite, elements: children };
        proof {
            lemma_blocks_view(children@);
            assert(blocks_view(children@).len() == 1);
            assert(blocks_view(children@)[0] == childv);
            assert(blocks_view(children@) =~= seq![childv]);
            assert(attrs_view(p_attrs@) == spec_block_attributes(s@.subrange(2, e as int)));
            assert(inlines_view(elements@) == spec_inline_elements(
                single_mode_strings(lv, s@.subrange(e + tl, s@.len() as int)),
                0,
            ));
            assert(childv =~~= (BlockV::Paragraph {
                attributes: spec_block_attributes(s@.subrange(2, e as int)),
                elements: spec_inline_elements(
                    single_mode_strings(lv, s@.subrange(e + tl, s@.len() as int)),
                    0,
                ),
                starts_with_p: false,
            }));
            assert(block_view(node) =~~= spec_block_quotation(lv)->Some_0.0);
        }
        Some((node, consumed))
    } else {
        let ghost resv = residue@;
        let (strings, consumed) = block_extent(lines, 2, residue);
        let children = paragraphs_with_attrs(&strings, &attributes);
        let ghost childrenv = blocks_view(children@);
        let node = Block::BlockQuotation { attributes, cite, elements: children };
        proof {
            assert(strings_view(strings@) == multi_mode_strings(lv, resv));
            assert(childrenv == spec_paragraphs(
                multi_mode_strings(lv, resv),
                0,
                spec_block_attributes(s@.subrange(2, e as int)),
            ));
            assert(block_view(node) =~~= spec_block_quotation(lv)->Some_0.0);
        }
        Some((node, consumed))
    }
}

/// Re-parses a double-dot quotation body into paragraphs, each stamped
/// with the quotation's attributes.
fn paragraphs_with_attrs(strings: &Vec<String>, attrs: &Attributes) -> (r: Vec<Block>)
    ensures
        blocks_view(r@) == spec_paragraphs(strings_view(strings@), 0, attrs_view(attrs@)),
    decreases strings@.len(), 19int, 0int,
{
    let ghost sv = strings_view(strings@);
    let ghost av = attrs_view(attrs@);
    let mut out: Vec<Block> = Vec::new();
    let mut pos: usize = 0;
    proof {
        lemma_blocks_view(out@);
        assert(blocks_view(out@) + spec_paragraphs(sv, 0, av) =~= spec_paragraphs(sv, 0, av));
    }
    while pos < strings.len()
        invariant
            pos <= strings@.len(),
            sv == strings_view(strings@),
            av == attrs_view(attrs@),
            spec_paragraphs(sv, 0, av) == blocks_view(out@) + spec_paragraphs(sv, pos as int, av),
        decreases strings@.len() - pos,
    {
        let ghost pre = out@;
        let mut strs: Vec<&str> = Vec::new();
        let mut i: usize = pos;
        while i < strings.len()
            invariant
                pos <= i <= strings@.len(),
                sv == strings_view(strings@),
                strs@.len() == i - pos,
                forall|j: int| 0 <= j < i - pos ==> strs@[j]@ == sv[pos + j],
            decreases strings@.len() - i,
        {
            strs.push(strings[i].as_str());
            i = i + 1;
        }
        proof {
            assert(lines_view(strs@) =~= sv.subrange(pos as int, sv.len() as int));
        }
        let (p, c) = parse_paragraph_total(strs.as_slice());
        let stamped = match p {
            Block::Paragraph { elements, starts_with_p, .. } => Block::Paragraph {
                attributes: clone_attributes(attrs),
                elements,
                starts_with_p,
            },
            other => other,
        };
        let ghost stampedv = block_view(stamped);
        out.push(stamped);
        proof {
            lemma_blocks_view(pre);
            lemma_blocks_view(out@);
            assert(blocks_view(out@) =~= blocks_view(pre).push(stampedv));
            assert(spec_paragraphs(sv, pos as int, av) == seq![stampedv] + spec_paragraphs(
                sv,
                pos + c,
                av,
            ));
            assert(blocks_view(pre) + (seq![stampedv] + spec_paragraphs(sv, pos + c, av))
                =~= blocks_view(out@) + spec_paragraphs(sv, pos + c, av));
        }
        pos = pos + c;
    }
    out
}

/// Recognises a code block.
pub fn parse_code_block(lines: &[&str]) -> (r: Option<(Block, usize)>)
    requires
        lines@.len() >= 1,
    ensures
        block_recognised(r, spec_code_block(lines_view(lines@)), lines@.len() as int),
    decreases lines@.len(), 20int, 0int,
{
    let ghost lv = lines_view(lines@);
    let s: &str = *vstd::slice::slice_index_get(lines, 0);
    let n = str_len(s);
    if !(n >= 2 && char_at(s, 0) == 'b' && char_at(s, 1) == 'c') {
        return None;
    }
    let e = match marker_end_exec(s, 2, false) {
        Option::Some(e) => e,
        Option::None => {
            return None;
        },
    };
    let tl = tail_len_exec(s, e, false);
    let d = dots_count_exec(s, e, false);
    let attributes = parse_block_attributes(substr(s, 2, e));
    proof {
        assert(e + tl <= n) by {
            assert(dots_tail_len(s@, e as int, false) > 0);
        }
    }
    let residue = substr_string(s, e + tl, n);
    let (strings, consumed) = block_extent(lines, d, residue);
    let code = crate::text::trim_trailing_str(join_lines(&strings).as_str());
    let node = Block::CodeBlock { attributes, code };
    proof {
        assert(block_view(node) =~~= spec_code_block(lv)->Some_0.0);
    }
    Some((node, consumed))
}

/// Recognises a comment block.
pub fn parse_comment(lines: &[&str]) -> (r: Option<(Block, usize)>)
    requires
        lines@.len() >= 1,
    ensures
        block_recognised(r, spec_comment(lines_view(lines@)), lines@.len() as int),
    decreases lines@.len(), 20int, 0int,
{
    let ghost lv = lines_view(lines@);
    let s: &str = *vstd::slice::slice_index_get(lines, 0);
    let n = str_len(s);
    if !(n >= 3 && char_at(s, 0) == '#' && char_at(s, 1) == '#' && char_at(s, 2) == '#') {
        return None;
    }
    let tl = tail_len_exec(s, 3, false);
    if tl == 0 {
        return None;
    }
    let d = dots_count_exec(s, 3, false);
    proof {
        assert(3 + tl <= n) by {
            assert(dots_tail_len(s@, 3, false) > 0);
        }
    }
    let residue = substr_string(s, 3 + tl, n);
    let (strings, consumed) = block_extent(lines, d, residue);
    let node = Block::Comment(strings);
    proof {
        assert(block_view(node) =~~= spec_comment(lv)->Some_0.0);
    }
    Some((node, consumed))
}

/// Recognises a heading.
pub fn parse_heading(lines: &[&str]) -> (r: Option<(Block, usize)>)
    requires
        lines@.len() >= 1,
    ensures
        block_recognised(r, spec_heading(lines_view(lines@)), lines@.len() as int),
    decreases lines@.len(), 20int, 0int,
{
    let ghost lv = lines_view(lines@);
    let s: &str = *vstd::slice::slice_index_get(lines, 0);
    let n = str_len(s);
    if n < 2 || char_at(s, 0) != 'h' {
        return None;
    }
    let c1 = char_at(s, 1);
    if !('1' as u32 <= c1 as u32 && c1 as u32 <= '6' as u32) {
        return None;
    }
    proof {
        lemma_last_dot_space(s@, 2);
    }
    let e = last_dot_space_exec(s, 2);
    if e >= n {
        proof {
            assert(last_dot_space(s@, 2) < 2);
        }
        return None;
    }
    let attributes = parse_block_attributes(substr(s, 2, e));
    let residue = substr_string(s, e + 2, n);
    let level: u8 = (c1 as u32 - '0' as u32) as u8;
    let (strings, consumed) = block_extent(lines, 1, residue);
    let strs = as_str_vec(&strings);
    let elements = parse_inline_elements(strs.as_slice());
    let node = Block::Heading { attributes, elements, level };
    proof {
        assert(block_view(node) =~~= spec_heading(lv)->Some_0.0);
    }
    Some((node, consumed))
}

/// Recognises a disabled-formatting block.
pub fn parse_no_textile(lines: &[&str]) -> (r: Option<(Block, usize)>)
    requires
        lines@.len() >= 1,
    ensures
        block_recognised(r, spec_no_textile_block(lines_view(lines@)), lines@.len() as int),
    decreases lines@.len(), 20int, 0int,
{
    let ghost lv = lines_view(lines@);
    let s: &str = *vstd::slice::slice_index_get(lines, 0);
    let n = str_len(s);
    proof {
        reveal_strlit("notextile");
    }
    if !crate::text::matches_str_at(s, 0, "notextile") {
        proof {
            assert(!(s@.len() >= 9 && s@.subrange(0, 9) == "notextile"@));
        }
        return None;
    }
    proof {
        assert(s@.subrange(0, 9) == "notextile"@);
    }
    let tl = tail_len_exec(s, 9, false);
    if tl == 0 {
        return None;
    }
    let d = dots_count_exec(s, 9, false);
    proof {
        assert(9 + tl <= n) by {
            assert(dots_tail_len(s@, 9, false) > 0);
        }
    }
    let residue = substr_string(s, 9 + tl, n);
    let (strings, consumed) = block_extent(lines, d, residue);
    let node = Block::NoTextileBlock(strings);
    proof {
        assert(block_view(node) =~~= spec_no_textile_block(lv)->Some_0.0);
    }
    Some((node, consumed))
}

/// Recognises a pre-formatted block.
pub fn parse_pre_block(lines: &[&str]) -> (r: Option<(Block, usize)>)
    requires
        lines@.len() >= 1,
    ensures
        block_recognised(r, spec_pre_block(lines_view(lines@)), lines@.len() as int),
    decreases lines@.len(), 20int, 0int,
{
    let ghost lv = lines_view(lines@);
    let s: &str = *vstd::slice::slice_index_get(lines, 0);
    let n = str_len(s);
    if !(n >= 3 && char_at(s, 0) == 'p' && char_at(s, 1) == 'r' && char_at(s, 2) == 'e') {
        return None;
    }
    let e = match marker_end_exec(s, 3, false) {
        Option::Some(e) => e,
        Option::None => {
            return None;
        },
    };
    let tl = tail_len_exec(s, e, false);
    let d = dots_count_exec(s, e, false);
    let attributes = parse_block_attributes(substr(s, 3, e));
    proof {
        assert(e + tl <= n) by {
            assert(dots_tail_len(s@, e as int, false) > 0);
        }
    }
    let residue = substr_string(s, e + tl, n);
    let (strings, consumed) = block_extent(lines, d, residue);
    let node = Block::Pre { attributes, lines: strings };
    proof {
        assert(block_view(node) =~~= spec_pre_block(lv)->Some_0.0);
    }
    Some((node, consumed))
}

/// Recognises a paragraph; it always succeeds.
fn parse_paragraph_total(lines: &[&str]) -> (r: (Block, usize))
    requires
        lines@.len() >= 1,
    ensures
        block_view(r.0) == spec_paragraph(lines_view(lines@)).0,
        r.1 as int == spec_paragraph(lines_view(lines@)).1,
        1 <= r.1 <= lines@.len(),
    decreases lines@.len(), 18int, 0int,
{
    let ghost lv = lines_view(lines@);
    let s: &str = *vstd::slice::slice_index_get(lines, 0);
    let n = str_len(s);
    proof {
        lemma_last_dot_space(s@, 1);
    }
    let e = if n >= 1 && char_at(s, 0) == 'p' {
        last_dot_space_exec(s, 1)
    } else {
        n
    };
    let explicit = n >= 1 && char_at(s, 0) == 'p' && e < n;
    let attrs_str = if explicit {
        substr(s, 1, e)
    } else {
        substr(s, 0, 0)
    };
    let residue = if explicit {
        substr_string(s, e + 2, n)
    } else {
        String::from_str(s)
    };
    let attributes = parse_block_attributes(attrs_str);
    let (strings, consumed) = block_extent(lines, 1, residue);
    let strs = as_str_vec(&strings);
    let elements = parse_inline_elements(strs.as_slice());
    let node = Block::Paragraph { attributes, elements, starts_with_p: explicit };
    proof {
        assert(s@.subrange(0, 0) =~= Seq::<char>::empty());
        assert(block_view(node) =~~= spec_paragraph(lv).0);
    }
    (node, consumed)
}

/// Recognises a paragraph, under the dispatcher's interface.
pub fn parse_paragraph(lines: &[&str]) -> (r: Option<(Block, usize)>)
    requires
        lines@.len() >= 1,
    ensures
        r is Some,
        block_recognised(r, Some(spec_paragraph(lines_view(lines@))), lines@.len() as int),
    decreases lines@.len(), 19int, 0int,
{
    let (b, c) = parse_paragraph_total(lines);
    Some((b, c))
}

/// Parses one block from the remaining lines: leading blank lines are
/// skipped, the recognisers are tried in their fixed order, and the
/// covered count accounts for the skipped blanks.  Some block is always
/// recognised, and it covers at least one and at most all of the lines.
pub fn parse_block(lines: &[&str]) -> (r: Option<(Block, usize)>)
    requires
        lines@.len() >= 1,
    ensures
        r is Some,
        block_recognised(r, Some(spec_block(lines_view(lines@))), lines@.len() as int),
    decreases lines@.len(), 30int, 0int,
{
    let ghost lv = lines_view(lines@);
    let sk0 = first_nonblank_exec(lines, 0);
    let sk = if sk0 < lines.len() {
        sk0
    } else {
        0
    };
    let sub = vstd::slice::slice_subrange(lines, sk, lines.len());
    proof {
        assert(lines_view(sub@) =~= lv.subrange(sk as int, lv.len() as int));
    }
    let (b, c) = parse_block_sub(sub);
    proof {
        assert(spec_block(lv).0 == block_view(b));
        assert(spec_block(lv).1 == sk + c);
    }
    Some((b, sk + c))
}

/// The dispatch over the lines once leading blanks are gone.
fn parse_block_sub(sub: &[&str]) -> (r: (Block, usize))
    requires
        sub@.len() >= 1,
    ensures
        block_view(r.0) == spec_block_sub(lines_view(sub@)).0,
        r.1 as int == spec_block_sub(lines_view(sub@)).1,
        1 <= r.1 <= sub@.len(),
    decreases sub@.len(), 25int, 0int,
{
    let r = parse_block_quotation(sub);
    match r {
        Option::Some((b, c)) => {
            return (b, c);
        },
        Option::None => {},
    }
    let r = parse_code_block(sub);
    match r {
        Option::Some((b, c)) => {
            return (b, c);
        },
        Option::None => {},
    }
    let r = parse_comment(sub);
    match r {
        Option::Some((b, c)) => {
            return (b, c);
        },
        Option::None => {},
    }
    let r = parse_heading(sub);
    match r {
        Option::Some((b, c)) => {
            return (b, c);
        },
        Option::None => {},
    }
    let r = parse_no_textile(sub);
    match r {
        Option::Some((b, c)) => {
            return (b, c);
        },
        Option::None => {},
    }
    let r = parse_pre_block(sub);
    match r {
        Option::Some((b, c)) => {
            return (b, c);
        },
        Option::None => {},
    }
    let r = crate::list::parse_list(sub);
    match r {
        Option::Some((b, c)) => {
            return (b, c);
        },
        Option::None => {},
    }
    parse_paragraph_total(sub)
}

/// Parses the whole line stream into the ordered top-level block
/// sequence.  Every line is covered by exactly one dispatch step, so the
/// covered counts sum to the number of lines.
pub fn parse_blocks(lines: &[&str]) -> (r: Vec<Block>)
    ensures
        blocks_view(r@) == spec_blocks(lines_view(lines@), 0),
{
    let ghost lv = lines_view(lines@);
    let n = lines.len();
    let mut blocks: Vec<Block> = Vec::new();
    let mut cur: usize = 0;
    proof {
        lemma_blocks_view(blocks@);
        assert(blocks_view(blocks@) + spec_blocks(lv, 0) =~= spec_blocks(lv, 0));
    }
    while cur < n
        invariant
            cur <= n,
            n == lines@.len(),
            lv == lines_view(lines@),
            spec_blocks(lv, 0) == blocks_view(blocks@) + spec_blocks(lv, cur as int),
        decreases n - cur,
    {
        let ghost pre = blocks@;
        let rest = vstd::slice::slice_subrange(lines, cur, n);
        proof {
            assert(lines_view(rest@) =~= lv.subrange(cur as int, lv.len() as int));
        }
        match parse_block(rest) {
            Option::Some((b, c)) => {
                let ghost bv = block_view(b);
                blocks.push(b);
                proof {
                    lemma_blocks_view(pre);
                    lemma_blocks_view(blocks@);
                    assert(blocks_view(blocks@) =~= blocks_view(pre).push(bv));
                    assert(spec_blocks(lv, cur as int) == seq![bv] + spec_blocks(lv, cur + c));
                    assert(blocks_view(pre) + (seq![bv] + spec_blocks(lv, cur + c))
                        =~= blocks_view(blocks@) + spec_blocks(lv, cur + c));
                }
                cur = cur + c;
            },
            Option::None => {
                proof {
                    assert(false);
                }
            },
        }
    }
    blocks
}

} // verus!
