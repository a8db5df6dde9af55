//! Character- and string-level helpers shared by the whole parser.
//!
//! All positions are counted in characters (Unicode scalar values), never in
//! bytes, so no operation here can split a multi-byte encoding.

use vstd::prelude::*;
use vstd::string::StrSliceExecFns;
use vstd::string::StringExecFns;

verus! {

/// Whether a character is uppercase, as `char::is_uppercase` decides it.
pub uninterp spec fn uppercase_char(c: char) -> bool;

/// Whether a character is alphanumeric, as `char::is_alphanumeric` decides it.
pub uninterp spec fn alnum_char(c: char) -> bool;

/// Whether a character is whitespace, as `char::is_whitespace` decides it.
pub uninterp spec fn whitespace_char(c: char) -> bool;

/// Relies on `char::is_uppercase`: a pure predicate on the character.
pub assume_specification[ char::is_uppercase ](c: char) -> (r: bool)
    ensures
        r == uppercase_char(c),
;

/// Relies on `char::is_alphanumeric`: a pure predicate on the character.
pub assume_specification[ char::is_alphanumeric ](c: char) -> (r: bool)
    ensures
        r == alnum_char(c),
;

/// Relies on `char::is_whitespace`: a pure predicate on the character.
pub assume_specification[ char::is_whitespace ](c: char) -> (r: bool)
    ensures
        r == whitespace_char(c),
;

/// Decimal digit.
pub open spec fn digit_char(c: char) -> bool {
    '0' as u32 <= c as u32 && c as u32 <= '9' as u32
}

/// ASCII letter, the only letters allowed in a language code.
pub open spec fn ascii_alpha_char(c: char) -> bool {
    ('a' as u32 <= c as u32 && c as u32 <= 'z' as u32)
    || ('A' as u32 <= c as u32 && c as u32 <= 'Z' as u32)
}

/// Character allowed in a CSS class token list.
pub open spec fn class_char(c: char) -> bool {
    alnum_char(c) || c == '-' || c == '_' || c == '.' || c == ' '
}

/// Character allowed in an element id.
pub open spec fn id_char(c: char) -> bool {
    alnum_char(c) || c == '-' || c == '_'
}

/// Character allowed in a CSS property key.
pub open spec fn css_key_char(c: char) -> bool {
    ('a' as u32 <= c as u32 && c as u32 <= 'z' as u32) || c == '-' || c == '_'
}

/// Opening bracket of an attribute group.
pub open spec fn open_bracket_char(c: char) -> bool {
    c == '[' || c == '{' || c == '('
}

/// Closing bracket of an attribute group.
pub open spec fn close_bracket_char(c: char) -> bool {
    c == ']' || c == '}' || c == ')'
}

/// Character of an alignment marker.
pub open spec fn align_mark_char(c: char) -> bool {
    c == '<' || c == '|' || c == '>' || c == '='
}

/// Character allowed in a link target.
pub open spec fn url_char(c: char) -> bool {
    c != ' ' && c != '(' && c != ')'
}

/// Numeric value of a decimal digit.
pub open spec fn digit_value(c: char) -> int {
    c as u32 - '0' as u32
}

/// A class of characters that the grammar scans over.
#[derive(Clone, Copy, Debug, PartialEq, Eq, Structural)]
pub enum CharClass {
    /// Exactly the given character.
    Exact(char),
    /// An ASCII letter.
    AsciiAlpha,
    /// A character of a CSS class token list.
    ClassTok,
    /// A character of an element id.
    IdTok,
    /// A character of a CSS property key.
    CssKey,
    /// Anything but a curly brace.
    NonBrace,
    /// A decimal digit.
    Digit,
    /// An uppercase letter.
    Upper,
    /// A character of a link target.
    UrlTok,
    /// Anything but a space.
    NonSpace,
    /// A character of an alignment marker.
    AlignMark,
    /// An opening bracket of an attribute group.
    OpenBracket,
    /// A closing bracket of an attribute group.
    CloseBracket,
    /// A parenthesis, either way round.
    Paren,
}

/// Whether `c` belongs to the class.
pub open spec fn char_in(cls: CharClass, c: char) -> bool {
    match cls {
        CharClass::Exact(e) => c == e,
        CharClass::AsciiAlpha => ascii_alpha_char(c),
        CharClass::ClassTok => class_char(c),
        CharClass::IdTok => id_char(c),
        CharClass::CssKey => css_key_char(c),
        CharClass::NonBrace => c != '{' && c != '}',
        CharClass::Digit => digit_char(c),
        CharClass::Upper => uppercase_char(c),
        CharClass::UrlTok => url_char(c),
        CharClass::NonSpace => c != ' ',
        CharClass::AlignMark => align_mark_char(c),
        CharClass::OpenBracket => open_bracket_char(c),
        CharClass::CloseBracket => close_bracket_char(c),
        CharClass::Paren => c == '(' || c == ')',
    }
}

/// Whether `c` belongs to the class, executably.
pub fn char_in_class(cls: CharClass, c: char) -> (r: bool)
    ensures
        r == char_in(cls, c),
{
    match cls {
        CharClass::Exact(e) => c == e,
        CharClass::AsciiAlpha => {
            ('a' as u32 <= c as u32 && c as u32 <= 'z' as u32)
            || ('A' as u32 <= c as u32 && c as u32 <= 'Z' as u32)
        },
        CharClass::ClassTok => {
            c.is_alphanumeric() || c == '-' || c == '_' || c == '.' || c == ' '
        },
        CharClass::IdTok => c.is_alphanumeric() || c == '-' || c == '_',
        CharClass::CssKey => ('a' as u32 <= c as u32 && c as u32 <= 'z' as u32) || c == '-' || c == '_',
        CharClass::NonBrace => c != '{' && c != '}',
        CharClass::Digit => '0' as u32 <= c as u32 && c as u32 <= '9' as u32,
        CharClass::Upper => c.is_uppercase(),
        CharClass::UrlTok => c != ' ' && c != '(' && c != ')',
        CharClass::NonSpace => c != ' ',
        CharClass::AlignMark => c == '<' || c == '|' || c == '>' || c == '=',
        CharClass::OpenBracket => c == '[' || c == '{' || c == '(',
        CharClass::CloseBracket => c == ']' || c == '}' || c == ')',
        CharClass::Paren => c == '(' || c == ')',
    }
}

/// Length of the longest run of characters of the class starting at `i`.
pub open spec fn run_len_at(s: Seq<char>, i: int, cls: CharClass) -> int
    decreases s.len() - i,
{
    if 0 <= i < s.len() && char_in(cls, s[i]) {
        1 + run_len_at(s, i + 1, cls)
    } else {
        0
    }
}

/// The run at `i` stays inside the string, consists of characters of the
/// class, and is maximal.
pub broadcast proof fn lemma_run_len_at(s: Seq<char>, i: int, cls: CharClass)
    requires
        0 <= i <= s.len(),
    ensures
        0 <= #[trigger] run_len_at(s, i, cls) <= s.len() - i,
        forall|j: int| i <= j < i + run_len_at(s, i, cls) ==> char_in(cls, s[j]),
        i + run_len_at(s, i, cls) < s.len() ==> !char_in(cls, s[i + run_len_at(s, i, cls)]),
    decreases s.len() - i,
{
    if i < s.len() && char_in(cls, s[i]) {
        lemma_run_len_at(s, i + 1, cls);
    }
}

/// Position of the first character of the class at or after `i`; the
/// length of the string when there is none.
pub open spec fn find_in(s: Seq<char>, i: int, cls: CharClass) -> int
    decreases s.len() - i,
{
    if i < 0 || i >= s.len() {
        s.len() as int
    } else if char_in(cls, s[i]) {
        i
    } else {
        find_in(s, i + 1, cls)
    }
}

/// What `find_in` returns is the first position of the class.
pub broadcast proof fn lemma_find_in(s: Seq<char>, i: int, cls: CharClass)
    requires
        0 <= i <= s.len(),
    ensures
        i <= #[trigger] find_in(s, i, cls) <= s.len(),
        forall|j: int| i <= j < find_in(s, i, cls) ==> !char_in(cls, s[j]),
        find_in(s, i, cls) < s.len() ==> char_in(cls, s[find_in(s, i, cls)]),
    decreases s.len() - i,
{
    if i < s.len() && !char_in(cls, s[i]) {
        lemma_find_in(s, i + 1, cls);
    }
}

/// Whether `pat` occurs in `s` starting exactly at position `i`.
pub open spec fn matches_at(s: Seq<char>, i: int, pat: Seq<char>) -> bool {
    0 <= i && i + pat.len() <= s.len() && s.subrange(i, i + pat.len() as int) == pat
}

/// Position of the first doubled occurrence of `c` at or after `i`; the
/// length of the string when there is none.
pub open spec fn find_pair(s: Seq<char>, i: int, c: char) -> int
    decreases s.len() - i,
{
    if i < 0 || i >= s.len() {
        s.len() as int
    } else if i + 1 < s.len() && s[i] == c && s[i + 1] == c {
        i
    } else {
        find_pair(s, i + 1, c)
    }
}

/// What `find_pair` returns is the first doubled occurrence.
pub broadcast proof fn lemma_find_pair(s: Seq<char>, i: int, c: char)
    requires
        0 <= i <= s.len(),
    ensures
        i <= #[trigger] find_pair(s, i, c) <= s.len(),
        find_pair(s, i, c) < s.len() ==> find_pair(s, i, c) + 1 < s.len() && s[find_pair(s, i, c)]
            == c && s[find_pair(s, i, c) + 1] == c,
    decreases s.len() - i,
{
    if i < s.len() && !(i + 1 < s.len() && s[i] == c && s[i + 1] == c) {
        lemma_find_pair(s, i + 1, c);
    }
}

/// Position of the first doubled occurrence of `c` at or after `i`, or the
/// length of the string, executably.
pub fn find_pair_from(s: &str, i: usize, c: char) -> (j: usize)
    requires
        i <= s@.len(),
    ensures
        j == find_pair(s@, i as int, c),
        i <= j <= s@.len(),
{
    proof {
        lemma_find_pair(s@, i as int, c);
    }
    let n = str_len(s);
    let mut j: usize = i;
    while !(j >= n || (j + 1 < n && char_at(s, j) == c && char_at(s, j + 1) == c))
        invariant
            i <= j <= n,
            n == s@.len(),
            find_pair(s@, i as int, c) == find_pair(s@, j as int, c),
        decreases n - j,
    {
        j = j + 1;
    }
    j
}

/// Position of the last occurrence of `c`; -1 when there is none.
pub open spec fn rfind(s: Seq<char>, c: char) -> int
    decreases s.len(),
{
    if s.len() == 0 {
        -1
    } else if s.last() == c {
        s.len() - 1
    } else {
        rfind(s.drop_last(), c)
    }
}

/// What `rfind` returns is the last occurrence.
pub broadcast proof fn lemma_rfind(s: Seq<char>, c: char)
    ensures
        -1 <= #[trigger] rfind(s, c) < s.len(),
        rfind(s, c) >= 0 ==> s[rfind(s, c)] == c,
        forall|j: int| rfind(s, c) < j < s.len() ==> s[j] != c,
    decreases s.len(),
{
    if s.len() > 0 && s.last() != c {
        lemma_rfind(s.drop_last(), c);
        assert(forall|j: int| 0 <= j < s.len() - 1 ==> s.drop_last()[j] == s[j]);
    }
}

/// Position of the last occurrence of `c`, or the length of the string
/// when there is none, executably.
pub fn rfind_from_end(s: &str, c: char) -> (j: usize)
    ensures
        rfind(s@, c) >= 0 ==> j == rfind(s@, c),
        rfind(s@, c) < 0 ==> j == s@.len(),
{
    proof {
        lemma_rfind(s@, c);
    }
    let n = str_len(s);
    let mut j: usize = n;
    while j > 0
        invariant
            j <= n,
            n == s@.len(),
            forall|t: int| j <= t < n ==> s@[t] != c,
        decreases j,
    {
        if char_at(s, j - 1) == c {
            proof {
                assert(rfind(s@, c) == j - 1) by {
                    lemma_rfind(s@, c);
                }
            }
            return j - 1;
        }
        j = j - 1;
    }
    n
}

/// Sum of the lengths of the lines from index `k` on.
pub open spec fn lines_total(lines: Seq<Seq<char>>, k: int) -> int
    decreases lines.len() - k,
{
    if k < 0 || k >= lines.len() {
        0
    } else {
        lines[k].len() + lines_total(lines, k + 1)
    }
}

/// Every line's length is bounded by the total from any earlier index.
pub broadcast proof fn lemma_lines_total(lines: Seq<Seq<char>>, k: int)
    requires
        0 <= k <= lines.len(),
    ensures
        #[trigger] lines_total(lines, k) >= 0,
        forall|j: int| k <= j < lines.len() ==> lines[j].len() <= lines_total(lines, k),
        k < lines.len() ==> lines_total(lines, k) == lines[k].len() + lines_total(lines, k + 1),
    decreases lines.len() - k,
{
    if k < lines.len() {
        lemma_lines_total(lines, k + 1);
    }
}

/// `s` with every non-overlapping occurrence of `pat` removed, scanning
/// from the left.
pub open spec fn remove_all(s: Seq<char>, pat: Seq<char>) -> Seq<char>
    decreases s.len(),
{
    if pat.len() == 0 || s.len() < pat.len() {
        s
    } else if s.subrange(0, pat.len() as int) == pat {
        remove_all(s.skip(pat.len() as int), pat)
    } else {
        seq![s[0]] + remove_all(s.skip(1), pat)
    }
}

/// Removing occurrences never lengthens a string.
pub broadcast proof fn lemma_remove_all_len(s: Seq<char>, pat: Seq<char>)
    ensures
        #[trigger] remove_all(s, pat).len() <= s.len(),
    decreases s.len(),
{
    if !(pat.len() == 0 || s.len() < pat.len()) {
        if s.subrange(0, pat.len() as int) == pat {
            lemma_remove_all_len(s.skip(pat.len() as int), pat);
        } else {
            lemma_remove_all_len(s.skip(1), pat);
        }
    }
}

/// Decimal digits of a non-negative number, most significant first.
pub open spec fn dec_digits(n: int) -> Seq<char>
    decreases n,
{
    if n < 10 {
        seq![dec_digit_char(if n < 0 { 0 } else { n % 10 })]
    } else {
        dec_digits(n / 10).push(dec_digit_char(n % 10))
    }
}

/// The character of one decimal digit.
pub open spec fn dec_digit_char(d: int) -> char {
    if d == 0 { '0' }
    else if d == 1 { '1' }
    else if d == 2 { '2' }
    else if d == 3 { '3' }
    else if d == 4 { '4' }
    else if d == 5 { '5' }
    else if d == 6 { '6' }
    else if d == 7 { '7' }
    else if d == 8 { '8' }
    else { '9' }
}

/// Numeric value of a digit string, most significant digit first.
pub open spec fn dec_value(s: Seq<char>) -> int
    decreases s.len(),
{
    if s.len() == 0 {
        0
    } else {
        dec_value(s.drop_last()) * 10 + digit_value(s.last())
    }
}

/// A value clamped to the range of `u8`.
pub open spec fn sat_u8(n: int) -> u8 {
    if n > 255 { 255 } else if n < 0 { 0 } else { n as u8 }
}

/// The lines joined with a newline between consecutive lines.
pub open spec fn join_nl(ls: Seq<Seq<char>>) -> Seq<char>
    decreases ls.len(),
{
    if ls.len() == 0 {
        Seq::empty()
    } else if ls.len() == 1 {
        ls[0]
    } else {
        join_nl(ls.drop_last()) + seq!['\n'] + ls.last()
    }
}

/// `s` without its trailing whitespace.
pub open spec fn trim_trailing(s: Seq<char>) -> Seq<char>
    decreases s.len(),
{
    if s.len() > 0 && whitespace_char(s.last()) {
        trim_trailing(s.drop_last())
    } else {
        s
    }
}

/// The string without its trailing whitespace, executably.
pub fn trim_trailing_str(s: &str) -> (r: String)
    ensures
        r@ == trim_trailing(s@),
{
    let n = str_len(s);
    let mut k: usize = n;
    proof {
        assert(s@.subrange(0, n as int) =~= s@);
    }
    while k > 0 && char_at(s, k - 1).is_whitespace()
        invariant
            k <= n,
            n == s@.len(),
            trim_trailing(s@) == trim_trailing(s@.subrange(0, k as int)),
        decreases k,
    {
        proof {
            assert(s@.subrange(0, k as int).drop_last() =~= s@.subrange(0, k - 1));
            assert(s@.subrange(0, k as int).last() == s@[k - 1]);
        }
        k = k - 1;
    }
    proof {
        if k > 0 {
            assert(trim_trailing(s@.subrange(0, k as int)) == s@.subrange(0, k as int));
        } else {
            assert(s@.subrange(0, 0) =~= Seq::<char>::empty());
        }
    }
    substr_string(s, 0, k)
}

/// Number of characters of a string.
pub fn str_len(s: &str) -> (n: usize)
    ensures
        n == s@.len(),
{
    s.unicode_len()
}

/// The character at position `i`.
pub fn char_at(s: &str, i: usize) -> (c: char)
    requires
        i < s@.len(),
    ensures
        c == s@[i as int],
{
    s.get_char(i)
}

/// The substring between character positions `from` and `to`.
pub fn substr(s: &str, from: usize, to: usize) -> (r: &str)
    requires
        from <= to <= s@.len(),
    ensures
        r@ == s@.subrange(from as int, to as int),
{
    s.substring_char(from, to)
}

/// The substring between character positions `from` and `to`, owned.
pub fn substr_string(s: &str, from: usize, to: usize) -> (r: String)
    requires
        from <= to <= s@.len(),
    ensures
        r@ == s@.subrange(from as int, to as int),
{
    String::from_str(s.substring_char(from, to))
}

/// Length of the run of characters of the class starting at `i`.
pub fn run_len(s: &str, i: usize, cls: CharClass) -> (n: usize)
    requires
        i <= s@.len(),
    ensures
        n == run_len_at(s@, i as int, cls),
        i + n <= s@.len(),
{
    proof {
        lemma_run_len_at(s@, i as int, cls);
    }
    let sn = str_len(s);
    let mut j: usize = i;
    while j < sn && char_in_class(cls, char_at(s, j))
        invariant
            i <= j <= sn,
            sn == s@.len(),
            run_len_at(s@, i as int, cls) == j - i + run_len_at(s@, j as int, cls),
        decreases sn - j,
    {
        j = j + 1;
    }
    j - i
}

/// Position of the first character of the class at or after `i`, or the
/// length of the string.
pub fn find_from(s: &str, i: usize, cls: CharClass) -> (j: usize)
    requires
        i <= s@.len(),
    ensures
        j == find_in(s@, i as int, cls),
        i <= j <= s@.len(),
{
    proof {
        lemma_find_in(s@, i as int, cls);
    }
    let sn = str_len(s);
    let mut j: usize = i;
    while j < sn && !char_in_class(cls, char_at(s, j))
        invariant
            i <= j <= sn,
            sn == s@.len(),
            find_in(s@, i as int, cls) == find_in(s@, j as int, cls),
        decreases sn - j,
    {
        j = j + 1;
    }
    j
}

/// Whether `pat` occurs in `s` starting exactly at character position `i`.
pub fn matches_str_at(s: &str, i: usize, pat: &str) -> (r: bool)
    requires
        i <= s@.len(),
    ensures
        r == matches_at(s@, i as int, pat@),
{
    let pn = str_len(pat);
    let sn = str_len(s);
    if sn - i < pn {
        proof {
            assert(!matches_at(s@, i as int, pat@));
        }
        return false;
    }
    let mut k: usize = 0;
    while k < pn
        invariant
            i + pn <= sn,
            sn == s@.len(),
            pn == pat@.len(),
            k <= pn,
            forall|j: int| 0 <= j < k ==> s@[i + j] == pat@[j],
        decreases pn - k,
    {
        if char_at(s, i + k) != char_at(pat, k) {
            proof {
                assert(s@.subrange(i as int, i + pat@.len()) != pat@) by {
                    assert(s@.subrange(i as int, i + pat@.len())[k as int] != pat@[k as int]);
                }
            }
            return false;
        }
        k = k + 1;
    }
    proof {
        assert(s@.subrange(i as int, i + pat@.len()) =~= pat@);
    }
    true
}

/// `s` with every non-overlapping occurrence of `pat` removed.
pub fn remove_all_str(s: &str, pat: &str) -> (r: String)
    ensures
        r@ == remove_all(s@, pat@),
{
    let sn = str_len(s);
    let pn = str_len(pat);
    let mut out = String::new();
    let mut pos: usize = 0;
    proof {
        assert(s@.skip(0) =~= s@);
        assert(out@ + remove_all(s@, pat@) =~= remove_all(s@, pat@));
    }
    while pos < sn
        invariant
            pos <= sn,
            sn == s@.len(),
            pn == pat@.len(),
            remove_all(s@, pat@) == out@ + remove_all(s@.skip(pos as int), pat@),
        decreases sn - pos,
    {
        let ghost pre = out@;
        let ghost rest = s@.skip(pos as int);
        if pn > 0 && matches_str_at(s, pos, pat) {
            proof {
                assert(rest.subrange(0, pat@.len() as int) =~= s@.subrange(
                    pos as int,
                    pos + pat@.len(),
                ));
                assert(rest.skip(pat@.len() as int) =~= s@.skip(pos + pat@.len()));
            }
            pos = pos + pn;
        } else {
            out.append(substr(s, pos, pos + 1));
            proof {
                if pn > 0 && rest.len() >= pat@.len() {
                    assert(rest.subrange(0, pat@.len() as int) =~= s@.subrange(
                        pos as int,
                        pos + pat@.len(),
                    ));
                }
                assert(seq![rest[0]] =~= s@.subrange(pos as int, pos + 1));
                assert(rest.skip(1) =~= s@.skip(pos + 1));
                assert(out@ =~= pre + seq![rest[0]]);
            }
            pos = pos + 1;
        }
    }
    proof {
        assert(s@.skip(pos as int) =~= Seq::<char>::empty());
        assert(out@ + Seq::<char>::empty() =~= out@);
    }
    out
}

/// The decimal digits of `n`.
pub fn dec_string(n: usize) -> (r: String)
    ensures
        r@ == dec_digits(n as int),
    decreases n,
{
    let d = n % 10;
    let ds = digit_str(d);
    if n < 10 {
        String::from_str(ds)
    } else {
        let mut r = dec_string(n / 10);
        r.append(ds);
        return r;
    }
}

/// The single-character string of one decimal digit.
fn digit_str(d: usize) -> (r: &'static str)
    requires
        d < 10,
    ensures
        r@ == seq![dec_digit_char(d as int)],
{
    proof {
        reveal_strlit("0");
        reveal_strlit("1");
        reveal_strlit("2");
        reveal_strlit("3");
        reveal_strlit("4");
        reveal_strlit("5");
        reveal_strlit("6");
        reveal_strlit("7");
        reveal_strlit("8");
        reveal_strlit("9");
    }
    let r = if d == 0 { "0" }
    else if d == 1 { "1" }
    else if d == 2 { "2" }
    else if d == 3 { "3" }
    else if d == 4 { "4" }
    else if d == 5 { "5" }
    else if d == 6 { "6" }
    else if d == 7 { "7" }
    else if d == 8 { "8" }
    else { "9" };
    proof {
        assert(r@ =~= seq![dec_digit_char(d as int)]);
    }
    r
}

/// Whether the character is a decimal digit.
pub fn is_digit(c: char) -> (r: bool)
    ensures
        r == digit_char(c),
{
    '0' as u32 <= c as u32 && c as u32 <= '9' as u32
}

} // verus!
