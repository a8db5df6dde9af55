//! The list assembler: ordered (`#`) and unordered (`*`) lists, with the
//! nesting level given by the marker-run length.  An item's body takes in
//! the following non-item lines; a deeper run opens a nested list that
//! stands as a sibling entry beside the items around it; a shallower run
//! or a different kind ends the current level.  A list runs to the first
//! blank line or the end of the input.

use vstd::prelude::*;
use vstd::string::StringExecFns;

use crate::ast::{
    Attribute, Attributes, AttrV, Block, BlockV, Inline, InlineV, ListElement, ListElementV,
    attrs_view, block_view, inlines_view, lines_view, list_element_view, list_elements_view,
    lemma_list_elements_view, strings_view,
};
use crate::attributes::{groups_end, parse_inline_attributes, spec_inline_attrs};
use crate::inline::{parse_inline_elements, spec_inline_elements};
use crate::text::{
    CharClass, char_at, char_in, char_in_class, dec_value, digit_char, digit_value, find_in, lemma_find_in,
    lemma_run_len_at, run_len, run_len_at, sat_u8, str_len, substr, substr_string,
};

verus! {

broadcast use {crate::text::lemma_run_len_at, crate::text::lemma_find_in};

/// Whether the line is an unordered list item: a run of `*`, an optional
/// run of attribute groups, and a space.
pub open spec fn uno_match(line: Seq<char>) -> bool {
    let r = run_len_at(line, 0, CharClass::Exact('*'));
    let g = groups_end(line, r);
    r >= 1 && g < line.len() && line[g] == ' '
}

/// Whether the line is an ordered list item: a run of `#`, an optional
/// numeral, an optional run of attribute groups, and a space.
pub open spec fn ord_match(line: Seq<char>) -> bool {
    let r = run_len_at(line, 0, CharClass::Exact('#'));
    let dd = run_len_at(line, r, CharClass::Digit);
    let g = groups_end(line, r + dd);
    r >= 1 && g < line.len() && line[g] == ' '
}

/// Whether the line is a list item of either kind.
pub open spec fn spec_is_item(line: Seq<char>) -> bool {
    uno_match(line) || ord_match(line)
}

/// The marker-run length of an item line; the unordered reading wins
/// where both could apply.
pub open spec fn item_run(line: Seq<char>) -> int {
    if uno_match(line) {
        run_len_at(line, 0, CharClass::Exact('*'))
    } else {
        run_len_at(line, 0, CharClass::Exact('#'))
    }
}

/// The nesting level of an item line: its marker-run length less one.
pub open spec fn item_level(line: Seq<char>) -> int {
    item_run(line) - 1
}

/// The numeral run length of an ordered item line.
pub open spec fn ord_digits(line: Seq<char>) -> int {
    run_len_at(line, run_len_at(line, 0, CharClass::Exact('#')), CharClass::Digit)
}

/// Where the attribute groups of an item line start.
pub open spec fn item_attrs_start(line: Seq<char>) -> int {
    if uno_match(line) {
        item_run(line)
    } else {
        item_run(line) + ord_digits(line)
    }
}

/// Where the attribute groups of an item line end; the space follows.
pub open spec fn item_attrs_end(line: Seq<char>) -> int {
    groups_end(line, item_attrs_start(line))
}

/// The attribute annotation of an item line.
pub open spec fn item_attrs_str(line: Seq<char>) -> Seq<char> {
    line.subrange(item_attrs_start(line), item_attrs_end(line))
}

/// The content of an item line, after the marker, the annotation and the
/// space.
pub open spec fn item_content(line: Seq<char>) -> Seq<char> {
    line.subrange(item_attrs_end(line) + 1, line.len() as int)
}

/// The first item line at or after `i`; the number of lines when there is
/// none.
pub open spec fn next_item(lines: Seq<Seq<char>>, i: int) -> int
    decreases lines.len() - i,
{
    if i < 0 || i >= lines.len() {
        lines.len() as int
    } else if spec_is_item(lines[i]) {
        i
    } else {
        next_item(lines, i + 1)
    }
}

/// What `next_item` returns is the first item line.
pub broadcast proof fn lemma_next_item(lines: Seq<Seq<char>>, i: int)
    requires
        0 <= i <= lines.len(),
    ensures
        i <= #[trigger] next_item(lines, i) <= lines.len(),
        next_item(lines, i) < lines.len() ==> spec_is_item(lines[next_item(lines, i)]),
    decreases lines.len() - i,
{
    if i < lines.len() && !spec_is_item(lines[i]) {
        lemma_next_item(lines, i + 1);
    }
}

/// The termination slack of a list call: how much deeper the nesting can
/// still go on the first line.
pub open spec fn level_slack(lines: Seq<Seq<char>>, level: int) -> int {
    if 0 < lines.len() && 0 <= level <= lines[0].len() {
        lines[0].len() - level
    } else {
        0
    }
}

/// The entries of one list level from line `idx` on, and the line where
/// the level ends: items of the target level and kind are collected with
/// their bodies, a deeper run becomes a nested sibling list, and a
/// shallower run or a different kind ends the level.
pub open spec fn spec_list_items(
    lines: Seq<Seq<char>>,
    idx: int,
    level: int,
    ordered: bool,
) -> (Seq<ListElementV>, int)
    decreases lines.len(), level_slack(lines, level), 1int, lines.len() - idx,
{
    if !(0 <= idx < lines.len()) || !spec_is_item(lines[idx]) {
        (Seq::empty(), if 0 <= idx <= lines.len() { idx } else { lines.len() as int })
    } else {
        let line = lines[idx];
        let item_ordered = !uno_match(line);
        let lvl = item_level(line);
        if lvl == level && item_ordered == ordered {
            let nb0 = next_item(lines, idx + 1);
            let nb = if idx + 1 <= nb0 <= lines.len() {
                nb0
            } else {
                lines.len() as int
            };
            let body = seq![item_content(line)] + lines.subrange(idx + 1, nb);
            let item = ListElementV::ListItem {
                attributes: spec_inline_attrs(item_attrs_str(line)),
                elements: spec_inline_elements(body, 0),
            };
            let (rest, end) = spec_list_items(lines, nb, level, ordered);
            (seq![item] + rest, end)
        } else if lvl > level && 0 <= level && idx < lines.len() {
            match spec_multilevel(lines.subrange(idx, lines.len() as int), lvl) {
                Option::Some((blk, c)) => {
                    let adv = if c < 1 {
                        1
                    } else if c > lines.len() - idx {
                        lines.len() - idx
                    } else {
                        c
                    };
                    let (rest, end) = spec_list_items(lines, idx + adv, level, ordered);
                    (seq![ListElementV::List(blk)] + rest, end)
                },
                Option::None => (Seq::empty(), idx),
            }
        } else {
            (Seq::empty(), idx)
        }
    }
}

/// The ordered-list recogniser at one level.
pub open spec fn spec_ordered(lines: Seq<Seq<char>>, level: int) -> (BlockV, int)
    decreases lines.len(), level_slack(lines, level), 2int, 0int,
{
    let (elements, end) = spec_list_items(lines, 0, level, true);
    let start = if lines.len() > 0 && ord_match(lines[0]) && !uno_match(lines[0]) && ord_digits(
        lines[0],
    ) >= 1 {
        let r = run_len_at(lines[0], 0, CharClass::Exact('#'));
        Option::Some(sat_u8(dec_value(lines[0].subrange(r, r + ord_digits(lines[0])))))
    } else {
        Option::None
    };
    (
        BlockV::OrderedList {
            attributes: Seq::empty(),
            elements,
            level: sat_u8(level),
            start,
        },
        end,
    )
}

/// The unordered-list recogniser at one level.
pub open spec fn spec_unordered(lines: Seq<Seq<char>>, level: int) -> (BlockV, int)
    decreases lines.len(), level_slack(lines, level), 2int, 0int,
{
    let (elements, end) = spec_list_items(lines, 0, level, false);
    (BlockV::UnorderedList { attributes: Seq::empty(), elements, level: sat_u8(level) }, end)
}

/// The list recogniser at one level: the ordered reading is tried first.
pub open spec fn spec_multilevel(lines: Seq<Seq<char>>, level: int) -> Option<(BlockV, int)>
    decreases lines.len(), level_slack(lines, level), 3int, 0int,
{
    if lines.len() == 0 {
        None
    } else if ord_match(lines[0]) && !uno_match(lines[0]) {
        Some(spec_ordered(lines, level))
    } else if uno_match(lines[0]) {
        Some(spec_unordered(lines, level))
    } else {
        None
    }
}

/// The top-level list recogniser: the lines up to the first blank one are
/// assembled starting at level zero, and the covered count runs to just
/// past that blank line, or to the end of the input.
pub open spec fn spec_list(lines: Seq<Seq<char>>) -> Option<(BlockV, int)>
{
    let tl = crate::block::first_blank(lines, 0);
    let tlc = if 0 <= tl <= lines.len() {
        tl
    } else {
        0
    };
    let sub = lines.subrange(0, tlc);
    match spec_multilevel(sub, 0) {
        Option::Some((b, _)) => Some(
            (
                b,
                if tl < lines.len() {
                    tl + 1
                } else {
                    lines.len() as int
                },
            ),
        ),
        Option::None => None,
    }
}

/// Whether the line is an unordered item, executably.
fn is_uno(line: &str) -> (r: bool)
    ensures
        r == uno_match(line@),
{
    let n = str_len(line);
    let rl = run_len(line, 0, CharClass::Exact('*'));
    let g = crate::attributes::groups_end_exec(line, rl);
    rl >= 1 && g < n && char_at(line, g) == ' '
}

/// Whether the line is an ordered item, executably.
fn is_ord(line: &str) -> (r: bool)
    ensures
        r == ord_match(line@),
{
    let n = str_len(line);
    let rl = run_len(line, 0, CharClass::Exact('#'));
    let dd = run_len(line, rl, CharClass::Digit);
    let g = crate::attributes::groups_end_exec(line, rl + dd);
    rl >= 1 && g < n && char_at(line, g) == ' '
}

/// Whether the line is a list item of either kind, executably.
fn is_item(line: &str) -> (r: bool)
    ensures
        r == spec_is_item(line@),
{
    is_uno(line) || is_ord(line)
}

/// The first item line at or after `i`, executably.
fn next_item_exec(lines: &[&str], i: usize) -> (r: usize)
    requires
        i <= lines@.len(),
    ensures
        r == next_item(lines_view(lines@), i as int),
        i <= r <= lines@.len(),
{
    proof {
        lemma_next_item(lines_view(lines@), i as int);
    }
    let n = lines.len();
    let mut k: usize = i;
    while k < n && !is_item(*vstd::slice::slice_index_get(lines, k))
        invariant
            i <= k <= n,
            n == lines@.len(),
            next_item(lines_view(lines@), i as int) == next_item(lines_view(lines@), k as int),
        decreases n - k,
    {
        k = k + 1;
    }
    k
}

/// Reads the value of an item's numeral, clamped to the range of `u8`.
fn read_start(line: &str, from: usize, to: usize) -> (v: u8)
    requires
        from <= to <= line@.len(),
        forall|j: int| from <= j < to ==> digit_char(line@[j]),
    ensures
        v == sat_u8(dec_value(line@.subrange(from as int, to as int))),
{
    let mut acc: u32 = 0;
    let mut k: usize = from;
    proof {
        assert(line@.subrange(from as int, from as int) =~= Seq::<char>::empty());
    }
    while k < to
        invariant
            from <= k <= to,
            to <= line@.len(),
            forall|j: int| from <= j < to ==> digit_char(line@[j]),
            dec_value(line@.subrange(from as int, k as int)) >= 0,
            acc <= 2569,
            (dec_value(line@.subrange(from as int, k as int)) > 255 && acc >= 256) || (dec_value(
                line@.subrange(from as int, k as int),
            ) <= 255 && acc == dec_value(line@.subrange(from as int, k as int))),
        decreases to - k,
    {
        let c = char_at(line, k);
        let d: u32 = c as u32 - '0' as u32;
        if acc > 255 {
            acc = 256;
        }
        acc = acc * 10 + d;
        proof {
            assert(line@.subrange(from as int, k + 1).drop_last() =~= line@.subrange(
                from as int,
                k as int,
            ));
            assert(line@.subrange(from as int, k + 1).last() == line@[k as int]);
            assert(digit_value(line@[k as int]) == d);
        }
        k = k + 1;
    }
    if acc > 255 {
        255
    } else {
        acc as u8
    }
}

/// The marker analysis of an item line, executably: run length, start of
/// the attribute groups, and end of the attribute groups.
fn item_parts(line: &str) -> (r: (usize, usize, usize))
    requires
        spec_is_item(line@),
    ensures
        r.0 == item_run(line@),
        r.1 == item_attrs_start(line@),
        r.2 == item_attrs_end(line@),
        r.2 < line@.len(),
{
    let _n = str_len(line);
    let item_ord = !is_uno(line);
    let run = if item_ord {
        run_len(line, 0, CharClass::Exact('#'))
    } else {
        run_len(line, 0, CharClass::Exact('*'))
    };
    let astart = if item_ord {
        run + run_len(line, run, CharClass::Digit)
    } else {
        run
    };
    let aend = crate::attributes::groups_end_exec(line, astart);
    (run, astart, aend)
}

/// Builds one list item from its line and the following body lines.
fn build_item(lines: &[&str], idx: usize, nb: usize) -> (r: ListElement)
    requires
        idx < lines@.len(),
        spec_is_item(lines_view(lines@)[idx as int]),
        idx + 1 <= nb <= lines@.len(),
    ensures
        list_element_view(r) == (ListElementV::ListItem {
            attributes: spec_inline_attrs(item_attrs_str(lines_view(lines@)[idx as int])),
            elements: spec_inline_elements(
                seq![item_content(lines_view(lines@)[idx as int])] + lines_view(lines@).subrange(
                    idx + 1,
                    nb as int,
                ),
                0,
            ),
        }),
{
    let ghost lv = lines_view(lines@);
    let n = lines.len();
    let line: &str = *vstd::slice::slice_index_get(lines, idx);
    let ln = str_len(line);
    let (_run, astart, aend) = item_parts(line);
    let mut strs: Vec<&str> = Vec::new();
    strs.push(substr(line, aend + 1, ln));
    let mut i: usize = idx + 1;
    while i < nb
        invariant
            idx + 1 <= i <= nb,
            nb <= n,
            n == lines@.len(),
            lv == lines_view(lines@),
            strs@.len() == i - idx,
            strs@[0]@ == item_content(lv[idx as int]),
            forall|j: int| 1 <= j < i - idx ==> strs@[j]@ == lv[idx + j],
        decreases nb - i,
    {
        strs.push(*vstd::slice::slice_index_get(lines, i));
        i = i + 1;
    }
    proof {
        assert(lines_view(strs@) =~= seq![item_content(lv[idx as int])] + lv.subrange(
            idx + 1,
            nb as int,
        ));
    }
    let (attributes, _residue) = parse_inline_attributes(substr(line, astart, aend));
    let elements = parse_inline_elements(strs.as_slice());
    ListElement::ListItem { attributes, elements }
}

/// The entries of one list level, executably.
#[verifier::rlimit(100)]
fn list_items_exec(lines: &[&str], level: usize, ordered: bool) -> (r: (Vec<ListElement>, usize))
    ensures
        list_elements_view(r.0@) == spec_list_items(
            lines_view(lines@),
            0,
            level as int,
            ordered,
        ).0,
        r.1 as int == spec_list_items(lines_view(lines@), 0, level as int, ordered).1,
        r.1 <= lines@.len(),
    decreases lines@.len(), level_slack(lines_view(lines@), level as int), 1int, 0int,
{
    let ghost lv = lines_view(lines@);
    let ghost li = spec_list_items(lv, 0, level as int, ordered);
    let n = lines.len();
    let mut out: Vec<ListElement> = Vec::new();
    let mut idx: usize = 0;
    proof {
        lemma_list_elements_view(out@);
        assert(list_elements_view(out@) + li.0 =~= li.0);
    }
    loop
        invariant
            idx <= n,
            n == lines@.len(),
            lv == lines_view(lines@),
            li == spec_list_items(lv, 0, level as int, ordered),
            li.0 == list_elements_view(out@) + spec_list_items(lv, idx as int, level as int,
                ordered).0,
            li.1 == spec_list_items(lv, idx as int, level as int, ordered).1,
        decreases n - idx,
    {
        let ghost pre = out@;
        if idx >= n {
            return (out, idx);
        }
        let line: &str = *vstd::slice::slice_index_get(lines, idx);
        if !is_item(line) {
            return (out, idx);
        }
        let item_ord = !is_uno(line);
        let (run, _astart, _aend) = item_parts(line);
        let lvl = run - 1;
        if lvl == level && item_ord == ordered {
            let nb = next_item_exec(lines, idx + 1);
            let item = build_item(lines, idx, nb);
            let ghost itemv = list_element_view(item);
            out.push(item);
            proof {
                lemma_list_elements_view(pre);
                lemma_list_elements_view(out@);
                assert(list_elements_view(out@) =~= list_elements_view(pre).push(itemv));
                assert(spec_list_items(lv, idx as int, level as int, ordered).0 == seq![itemv]
                    + spec_list_items(lv, nb as int, level as int, ordered).0);
                assert(list_elements_view(pre) + (seq![itemv] + spec_list_items(
                    lv,
                    nb as int,
                    level as int,
                    ordered,
                ).0) =~= list_elements_view(out@) + spec_list_items(
                    lv,
                    nb as int,
                    level as int,
                    ordered,
                ).0);
            }
            idx = nb;
        } else if lvl > level {
            let sub = vstd::slice::slice_subrange(lines, idx, n);
            proof {
                assert(lines_view(sub@) =~= lv.subrange(idx as int, lv.len() as int));
            }
            match parse_multilevel_list(sub, lvl) {
                Option::Some((blk, c)) => {
                    let adv = if c < 1 {
                        1
                    } else if c > n - idx {
                        n - idx
                    } else {
                        c
                    };
                    let entry = ListElement::List(blk);
                    let ghost entryv = list_element_view(entry);
                    out.push(entry);
                    proof {
                        lemma_list_elements_view(pre);
                        lemma_list_elements_view(out@);
                        assert(list_elements_view(out@) =~= list_elements_view(pre).push(entryv));
                        assert(spec_list_items(lv, idx as int, level as int, ordered).0
                            == seq![entryv] + spec_list_items(
                            lv,
                            idx + adv,
                            level as int,
                            ordered,
                        ).0);
                        assert(list_elements_view(pre) + (seq![entryv] + spec_list_items(
                            lv,
                            idx + adv,
                            level as int,
                            ordered,
                        ).0) =~= list_elements_view(out@) + spec_list_items(
                            lv,
                            idx + adv,
                            level as int,
                            ordered,
                        ).0);
                    }
                    idx = idx + adv;
                },
                Option::None => {
                    proof {
                        assert(false);
                    }
                },
            }
        } else {
            return (out, idx);
        }
    }
}

/// Assembles an ordered list at one level, executably.
fn parse_ordered_list(lines: &[&str], level: usize) -> (r: (Block, usize))
    ensures
        block_view(r.0) == spec_ordered(lines_view(lines@), level as int).0,
        r.1 as int == spec_ordered(lines_view(lines@), level as int).1,
        r.1 <= lines@.len(),
    decreases lines@.len(), level_slack(lines_view(lines@), level as int), 2int, 0int,
{
    let ghost lv = lines_view(lines@);
    let (elements, end) = list_items_exec(lines, level, true);
    let start: Option<u8> = if lines.len() > 0 {
        let line: &str = *vstd::slice::slice_index_get(lines, 0);
        if is_ord(line) && !is_uno(line) {
            let _ln = str_len(line);
            let rl = run_len(line, 0, CharClass::Exact('#'));
            let dd = run_len(line, rl, CharClass::Digit);
            if dd >= 1 {
                proof {
                    crate::text::lemma_run_len_at(line@, rl as int, CharClass::Digit);
                }
                Some(read_start(line, rl, rl + dd))
            } else {
                None
            }
        } else {
            None
        }
    } else {
        None
    };
    let level8: u8 = if level > 255 {
        255
    } else {
        level as u8
    };
    let node = Block::OrderedList { attributes: Vec::new(), elements, level: level8, start };
    proof {
        assert(attrs_view(Seq::<Attribute>::empty()) =~= Seq::<AttrV>::empty());
        assert(block_view(node) =~~= spec_ordered(lv, level as int).0);
    }
    (node, end)
}

/// Assembles an unordered list at one level, executably.
fn parse_unordered_list(lines: &[&str], level: usize) -> (r: (Block, usize))
    ensures
        block_view(r.0) == spec_unordered(lines_view(lines@), level as int).0,
        r.1 as int == spec_unordered(lines_view(lines@), level as int).1,
        r.1 <= lines@.len(),
    decreases lines@.len(), level_slack(lines_view(lines@), level as int), 2int, 0int,
{
    let ghost lv = lines_view(lines@);
    let (elements, end) = list_items_exec(lines, level, false);
    let level8: u8 = if level > 255 {
        255
    } else {
        level as u8
    };
    let node = Block::UnorderedList { attributes: Vec::new(), elements, level: level8 };
    proof {
        assert(attrs_view(Seq::<Attribute>::empty()) =~= Seq::<AttrV>::empty());
        assert(block_view(node) =~~= spec_unordered(lv, level as int).0);
    }
    (node, end)
}

/// Assembles a list at the given nesting level: the ordered reading is
/// tried first.
pub fn parse_multilevel_list(lines: &[&str], list_level: usize) -> (r: Option<(Block, usize)>)
    ensures
        r is Some <==> spec_multilevel(lines_view(lines@), list_level as int) is Some,
        r is Some ==> {
            let (nv, st) = spec_multilevel(lines_view(lines@), list_level as int)->Some_0;
            block_view(r->Some_0.0) == nv && r->Some_0.1 as int == st && r->Some_0.1
                <= lines@.len()
        },
    decreases lines@.len(), level_slack(lines_view(lines@), list_level as int), 3int, 0int,
{
    if lines.len() == 0 {
        return None;
    }
    let line: &str = *vstd::slice::slice_index_get(lines, 0);
    if is_ord(line) && !is_uno(line) {
        let (b, c) = parse_ordered_list(lines, list_level);
        Some((b, c))
    } else if is_uno(line) {
        let (b, c) = parse_unordered_list(lines, list_level);
        Some((b, c))
    } else {
        None
    }
}

/// Recognises a list block: the lines up to the first blank one are
/// assembled starting at level zero.
pub fn parse_list(lines: &[&str]) -> (r: Option<(Block, usize)>)
    requires
        lines@.len() >= 1,
    ensures
        crate::block::block_recognised(r, spec_list(lines_view(lines@)), lines@.len() as int),
{
    let ghost lv = lines_view(lines@);
    let n = lines.len();
    let tl = crate::block::first_blank_exec(lines, 0);
    let sub = vstd::slice::slice_subrange(lines, 0, tl);
    proof {
        assert(lines_view(sub@) =~= lv.subrange(0, tl as int));
    }
    match parse_multilevel_list(sub, 0) {
        Option::Some((b, _)) => {
            let c = if tl < n {
                tl + 1
            } else {
                n
            };
            Some((b, c))
        },
        Option::None => None,
    }
}

} // verus!
