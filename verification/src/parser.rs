//! The document assembler: the input text is split into lines and the
//! block dispatcher is driven over the whole line stream.

use vstd::prelude::*;
use vstd::string::StringExecFns;

use crate::ast::{Block, BlockV, blocks_view, lines_view, strings_view};
use crate::block::{parse_blocks, spec_blocks};
use crate::into_string::IntoString;
use crate::text::{CharClass, char_at, find_in, find_from, lemma_find_in, str_len, substr_string};

verus! {

/// A line with a trailing carriage return dropped: the `\r` of a `\r\n`
/// ending belongs to the ending, not to the line.
pub open spec fn strip_cr(l: Seq<char>) -> Seq<char> {
    if l.len() > 0 && l.last() == '\r' {
        l.drop_last()
    } else {
        l
    }
}

/// The lines of the text from `from` on: split at every `\n`, with a
/// `\r\n` ending recognised too.  A final line ending is optional and
/// produces no further line.
pub open spec fn spec_lines(s: Seq<char>, from: int) -> Seq<Seq<char>>
    decreases s.len() - from,
{
    if from < 0 || from >= s.len() {
        Seq::empty()
    } else {
        let j = find_in(s, from, CharClass::Exact('\n'));
        if j >= s.len() || j < from {
            seq![s.subrange(from, s.len() as int)]
        } else {
            seq![strip_cr(s.subrange(from, j))] + spec_lines(s, j + 1)
        }
    }
}

/// The document of a text: the blocks of its lines.
pub open spec fn spec_parse(text: Seq<char>) -> Seq<BlockV> {
    spec_blocks(spec_lines(text, 0), 0)
}

/// Splits the text into lines, executably.
fn split_lines(s: &str) -> (r: Vec<String>)
    ensures
        strings_view(r@) == spec_lines(s@, 0),
{
    let n = str_len(s);
    let mut out: Vec<String> = Vec::new();
    let mut from: usize = 0;
    proof {
        assert(strings_view(out@) + spec_lines(s@, 0) =~= spec_lines(s@, 0));
    }
    loop
        invariant
            from <= n,
            n == s@.len(),
            spec_lines(s@, 0) == strings_view(out@) + spec_lines(s@, from as int),
        decreases n - from,
    {
        let ghost pre = out@;
        if from >= n {
            proof {
                assert(strings_view(out@) + spec_lines(s@, from as int) =~= strings_view(out@));
            }
            return out;
        }
        let j = find_from(s, from, CharClass::Exact('\n'));
        if j >= n {
            out.push(substr_string(s, from, n));
            proof {
                assert(strings_view(out@) =~= strings_view(pre).push(
                    s@.subrange(from as int, n as int),
                ));
                assert(strings_view(pre).push(s@.subrange(from as int, n as int))
                    =~= strings_view(pre) + spec_lines(s@, from as int));
                assert(strings_view(out@) =~= spec_lines(s@, 0));
            }
            return out;
        }
        let end = if j > from && char_at(s, j - 1) == '\r' {
            j - 1
        } else {
            j
        };
        out.push(substr_string(s, from, end));
        let ghost f0 = from as int;
        from = j + 1;
        proof {
            if j > from {
                assert(s@.subrange(f0, j as int).last() == s@[j - 1]);
                assert(s@.subrange(f0, j as int).drop_last() =~= s@.subrange(f0, j - 1));
            }
            assert(s@.subrange(f0, end as int) =~= strip_cr(s@.subrange(f0, j as int)));
            assert(strings_view(out@) =~= strings_view(pre).push(
                strip_cr(s@.subrange(f0, j as int)),
            ));
            assert(spec_lines(s@, f0) == seq![strip_cr(s@.subrange(f0, j as int))] + spec_lines(
                s@,
                from as int,
            ));
            assert(strings_view(pre) + (seq![strip_cr(s@.subrange(f0, j as int))] + spec_lines(
                s@,
                from as int,
            )) =~= strings_view(out@) + spec_lines(s@, from as int));
        }
    }
}

/// Parses the given text into the ordered sequence of its top-level
/// blocks.  Parsing is total: it terminates on every input, never fails,
/// and the blocks cover the input's lines exactly.
pub fn parse<S: IntoString>(text: S) -> (r: Vec<Block>)
    ensures
        blocks_view(r@) == spec_parse(text.str_view()),
{
    let owned = text.into_string();
    let lines = split_lines(owned.as_str());
    let strs = crate::block::as_str_vec(&lines);
    parse_blocks(strs.as_slice())
}

} // verus!
