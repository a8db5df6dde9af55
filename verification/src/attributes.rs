//! The attribute resolver: it recognises, in a fixed order, a language
//! code `[en]`, a class/id group `(classes#id)`, and a CSS property list
//! `{key: value; key2: value2}`, removes each recognised piece from a
//! working copy of its input, and returns the structured attributes
//! together with the residue.  Block-level callers additionally read a
//! padding run (`(((` / `)))`) and an alignment marker (`<`, `>`, `=`,
//! `<>`) from the residue.  The resolver is total: input without any of
//! these yields empty attributes and the input unchanged.

use vstd::prelude::*;
use vstd::string::StringExecFns;

use crate::ast::{Attribute, Attributes, AttrV, attrs_view, strings_view, style_view};
use crate::text::{
    CharClass, align_mark_char, ascii_alpha_char, char_at, char_in, char_in_class, dec_digits,
    dec_string, find_in, lemma_find_in, lemma_run_len_at, matches_at, matches_str_at,
    open_bracket_char, remove_all, remove_all_str, run_len, run_len_at, str_len, substr,
    substr_string, find_from,
};

verus! {

/// Length of the language code of a language annotation starting exactly
/// at `i` (2 for `[en]`, 5 for `[en-GB]`), or 0 when none starts there.
/// The long, region-carrying form is preferred.
pub open spec fn lang_code_len_at(s: Seq<char>, i: int) -> int {
    if 0 <= i && i + 4 <= s.len() && s[i] == '[' && ascii_alpha_char(s[i + 1]) && ascii_alpha_char(
        s[i + 2],
    ) {
        if i + 7 <= s.len() && s[i + 3] == '-' && ascii_alpha_char(s[i + 4]) && ascii_alpha_char(
            s[i + 5],
        ) && s[i + 6] == ']' {
            5
        } else if s[i + 3] == ']' {
            2
        } else {
            0
        }
    } else {
        0
    }
}

/// Position of the first language annotation at or after `i`; the length
/// of the string when there is none.
pub open spec fn find_lang(s: Seq<char>, i: int) -> int
    decreases s.len() - i,
{
    if i < 0 || i >= s.len() {
        s.len() as int
    } else if lang_code_len_at(s, i) > 0 {
        i
    } else {
        find_lang(s, i + 1)
    }
}

/// The language code found at position `p`.
pub open spec fn lang_code(s: Seq<char>, p: int) -> Seq<char> {
    s.subrange(p + 1, p + 1 + lang_code_len_at(s, p))
}

/// Length of the class token run of a class/id group starting at `i`.
pub open spec fn class_run(s: Seq<char>, i: int) -> int {
    run_len_at(s, i + 1, CharClass::ClassTok)
}

/// Length of the id token run of a class/id group starting at `i`, when
/// the group carries an id; 0 otherwise.
pub open spec fn id_run(s: Seq<char>, i: int) -> int {
    let r = class_run(s, i);
    if i + 1 + r < s.len() && s[i + 1 + r] == '#' {
        run_len_at(s, i + 2 + r, CharClass::IdTok)
    } else {
        0
    }
}

/// Whether a class/id group `(classes#id)` starts exactly at `i`; both the
/// class list and the id may be absent.
pub open spec fn class_id_match(s: Seq<char>, i: int) -> bool {
    0 <= i < s.len() && s[i] == '(' && {
        let r = class_run(s, i);
        ||| (i + 1 + r < s.len() && s[i + 1 + r] == ')')
        ||| (i + 1 + r < s.len() && s[i + 1 + r] == '#' && {
            let q = id_run(s, i);
            q >= 1 && i + 2 + r + q < s.len() && s[i + 2 + r + q] == ')'
        })
    }
}

/// Whether the class/id group at `i` carries an id.
pub open spec fn class_id_has_id(s: Seq<char>, i: int) -> bool {
    let r = class_run(s, i);
    !(i + 1 + r < s.len() && s[i + 1 + r] == ')')
}

/// Total length of the class/id group starting at `i`.
pub open spec fn class_id_total(s: Seq<char>, i: int) -> int {
    let r = class_run(s, i);
    if class_id_has_id(s, i) {
        r + id_run(s, i) + 3
    } else {
        r + 2
    }
}

/// Position of the first class/id group at or after `i`; the length of the
/// string when there is none.
pub open spec fn find_class_id(s: Seq<char>, i: int) -> int
    decreases s.len() - i,
{
    if i < 0 || i >= s.len() {
        s.len() as int
    } else if class_id_match(s, i) {
        i
    } else {
        find_class_id(s, i + 1)
    }
}

/// Length of the brace-free content of a CSS property group starting
/// exactly at `i`; 0 when no group starts there.
pub open spec fn css_content_len_at(s: Seq<char>, i: int) -> int {
    if 0 <= i < s.len() && s[i] == '{' {
        let r = run_len_at(s, i + 1, CharClass::NonBrace);
        if r >= 1 && i + 1 + r < s.len() && s[i + 1 + r] == '}' {
            r
        } else {
            0
        }
    } else {
        0
    }
}

/// Position of the first CSS property group at or after `i`; the length of
/// the string when there is none.
pub open spec fn find_css(s: Seq<char>, i: int) -> int
    decreases s.len() - i,
{
    if i < 0 || i >= s.len() {
        s.len() as int
    } else if css_content_len_at(s, i) > 0 {
        i
    } else {
        find_css(s, i + 1)
    }
}

/// The suffix of `s` from `from` split at every `;`, each `;` eating the
/// spaces that follow it.
pub open spec fn split_semis(s: Seq<char>, from: int) -> Seq<Seq<char>>
    recommends
        0 <= from <= s.len(),
    decreases s.len() - from,
{
    let j = find_in(s, from, CharClass::Exact(';'));
    if j >= s.len() || from < 0 || j < from {
        seq![s.subrange(if 0 <= from <= s.len() { from } else { 0 }, s.len() as int)]
    } else {
        let sp0 = run_len_at(s, j + 1, CharClass::Exact(' '));
        let sp = if sp0 > s.len() - (j + 1) { s.len() - (j + 1) } else if sp0 < 0 { 0 } else { sp0 };
        seq![s.subrange(from, j)] + split_semis(s, j + 1 + sp)
    }
}

/// Length of the key of a CSS property starting exactly at `j` in a field;
/// 0 when no property starts there.  A property is a non-empty key of
/// lowercase letters, `-` and `_`, a colon, optional spaces, and a
/// non-empty value reaching the end of the field.
pub open spec fn css_key_len_at(f: Seq<char>, j: int) -> int {
    let k = run_len_at(f, j, CharClass::CssKey);
    if k >= 1 && j + k < f.len() && f[j + k] == ':' && f.len() - (j + k + 1) >= 1 {
        k
    } else {
        0
    }
}

/// Position of the first CSS property at or after `j`; the length of the
/// field when there is none.
pub open spec fn find_css_prop(f: Seq<char>, j: int) -> int
    decreases f.len() - j,
{
    if j < 0 || j >= f.len() {
        f.len() as int
    } else if css_key_len_at(f, j) > 0 {
        j
    } else {
        find_css_prop(f, j + 1)
    }
}

/// The value of the CSS property found at `j`: the rest of the field after
/// the colon and the space run, kept non-empty.
pub open spec fn css_value_at(f: Seq<char>, j: int) -> Seq<char> {
    let k = css_key_len_at(f, j);
    let sp = run_len_at(f, j + k + 1, CharClass::Exact(' '));
    let avail = f.len() - (j + k + 1);
    let m = if sp > avail - 1 { avail - 1 } else { sp };
    f.subrange(j + k + 1 + m, f.len() as int)
}

/// First position of the key `k` in the property list; the length of the
/// list when the key is absent.
pub open spec fn key_index(props: Seq<(Seq<char>, Seq<char>)>, k: Seq<char>, from: int) -> int
    decreases props.len() - from,
{
    if from < 0 || from >= props.len() {
        props.len() as int
    } else if props[from].0 == k {
        from
    } else {
        key_index(props, k, from + 1)
    }
}

/// The property list with `k` set to `v`: overwritten in place when the
/// key is present, appended otherwise.
pub open spec fn css_insert(
    props: Seq<(Seq<char>, Seq<char>)>,
    k: Seq<char>,
    v: Seq<char>,
) -> Seq<(Seq<char>, Seq<char>)> {
    let i = key_index(props, k, 0);
    if i < props.len() {
        props.update(i, (props[i].0, v))
    } else {
        props.push((k, v))
    }
}

/// The property list after reading one field of a CSS group; a field
/// without a well-formed property is skipped.
pub open spec fn css_field(
    props: Seq<(Seq<char>, Seq<char>)>,
    f: Seq<char>,
) -> Seq<(Seq<char>, Seq<char>)> {
    let j = find_css_prop(f, 0);
    if j < f.len() {
        css_insert(props, f.subrange(j, j + css_key_len_at(f, j)), css_value_at(f, j))
    } else {
        props
    }
}

/// The property list after reading the fields from index `k` on.
pub open spec fn css_fold(
    props: Seq<(Seq<char>, Seq<char>)>,
    fields: Seq<Seq<char>>,
    k: int,
) -> Seq<(Seq<char>, Seq<char>)>
    decreases fields.len() - k,
{
    if k < 0 || k >= fields.len() {
        props
    } else {
        css_fold(css_field(props, fields[k]), fields, k + 1)
    }
}

/// The CSS properties of the group whose content starts at `c + 1`.
pub open spec fn css_props(s: Seq<char>, c: int) -> Seq<(Seq<char>, Seq<char>)> {
    css_fold(Seq::empty(), split_semis(s.subrange(c + 1, c + 1 + css_content_len_at(s, c)), 0), 0)
}

/// The class token list split on runs of spaces; leading or trailing
/// spaces contribute an empty token.
pub open spec fn split_class(s: Seq<char>, from: int) -> Seq<Seq<char>>
    recommends
        0 <= from <= s.len(),
    decreases s.len() - from,
{
    let j = find_in(s, from, CharClass::Exact(' '));
    if j >= s.len() || from < 0 || j < from {
        seq![s.subrange(if 0 <= from <= s.len() { from } else { 0 }, s.len() as int)]
    } else {
        let sp0 = run_len_at(s, j, CharClass::Exact(' '));
        let sp1 = if sp0 > s.len() - j { s.len() - j } else { sp0 };
        let sp = if sp1 < 1 { 1 } else { sp1 };
        seq![s.subrange(from, j)] + split_class(s, j + sp)
    }
}

/// The language, class and id attributes of an annotation string.
pub open spec fn spec_lci_attrs(s: Seq<char>) -> Seq<AttrV> {
    let p = find_lang(s, 0);
    let lang_attrs: Seq<AttrV> = if p < s.len() {
        seq![AttrV::Language(lang_code(s, p))]
    } else {
        Seq::empty()
    };
    let q = find_class_id(s, 0);
    let cls_attrs: Seq<AttrV> = if q < s.len() && class_run(s, q) > 0 {
        seq![AttrV::Class(split_class(s.subrange(q + 1, q + 1 + class_run(s, q)), 0))]
    } else {
        Seq::empty()
    };
    let id_attrs: Seq<AttrV> = if q < s.len() && class_id_has_id(s, q) {
        seq![AttrV::Id(s.subrange(q + 2 + class_run(s, q), q + 2 + class_run(s, q) + id_run(s, q)))]
    } else {
        Seq::empty()
    };
    lang_attrs + cls_attrs + id_attrs
}

/// The residue of an annotation string: the string with the recognised
/// language code, class/id group and CSS group removed.
pub open spec fn spec_residue(s: Seq<char>) -> Seq<char> {
    let p = find_lang(s, 0);
    let w1 = if p < s.len() {
        remove_all(s, lang_code(s, p))
    } else {
        s
    };
    let q = find_class_id(s, 0);
    let w2 = if q < s.len() {
        remove_all(w1, s.subrange(q, q + class_id_total(s, q)))
    } else {
        w1
    };
    let c = find_css(s, 0);
    if c < s.len() {
        remove_all(w2, s.subrange(c, c + css_content_len_at(s, c) + 2))
    } else {
        w2
    }
}

/// The CSS properties of an annotation string.
pub open spec fn spec_css(s: Seq<char>) -> Seq<(Seq<char>, Seq<char>)> {
    let c = find_css(s, 0);
    if c < s.len() {
        css_props(s, c)
    } else {
        Seq::empty()
    }
}

/// The CSS properties of a block annotation after the padding run and the
/// alignment marker of the residue `w` are read.
pub open spec fn spec_block_css(s: Seq<char>, w: Seq<char>) -> Seq<(Seq<char>, Seq<char>)> {
    let css = spec_css(s);
    let p = find_in(w, 0, CharClass::Paren);
    let css1 = if p < w.len() {
        let run = run_len_at(w, p, CharClass::Exact(w[p]));
        let key = if w[p] == '(' {
            "padding-left"@
        } else {
            "padding-right"@
        };
        css_insert(css, key, dec_digits(run) + "em"@)
    } else {
        css
    };
    let a = find_in(w, 0, CharClass::AlignMark);
    if a < w.len() {
        let two = a + 1 < w.len() && align_mark_char(w[a + 1]);
        let value = if !two && w[a] == '>' {
            "right"@
        } else if two && w[a] == '<' && w[a + 1] == '>' {
            "justify"@
        } else if !two && w[a] == '=' {
            "center"@
        } else {
            "left"@
        };
        css_insert(css1, "text-align"@, value)
    } else {
        css1
    }
}

/// What `parse_block_attributes` returns: language, class and id, then a
/// single style attribute when any CSS property, padding run or alignment
/// marker was present.
pub open spec fn spec_block_attributes(s: Seq<char>) -> Seq<AttrV> {
    let attrs = spec_lci_attrs(s);
    let css = spec_block_css(s, spec_residue(s));
    if css.len() > 0 {
        attrs.push(AttrV::Style(css))
    } else {
        attrs
    }
}

/// End of the run of bracket groups that starts the string: each group is
/// an opening bracket, at least one character, and the first closing
/// bracket after those.
pub open spec fn groups_end(s: Seq<char>, p: int) -> int
    decreases s.len() - p,
{
    if 0 <= p < s.len() && open_bracket_char(s[p]) {
        let q = find_in(s, p + 2, CharClass::CloseBracket);
        if p + 2 <= q < s.len() {
            groups_end(s, q + 1)
        } else {
            p
        }
    } else {
        if p < 0 {
            0
        } else if p > s.len() {
            s.len() as int
        } else {
            p
        }
    }
}

/// The attributes of an inline annotation: those of the leading bracket
/// groups, with the CSS properties appended as one style attribute.
pub open spec fn spec_inline_attrs(text: Seq<char>) -> Seq<AttrV> {
    let a = text.subrange(0, groups_end(text, 0));
    let attrs = spec_lci_attrs(a);
    let css = spec_css(a);
    if css.len() > 0 {
        attrs.push(AttrV::Style(css))
    } else {
        attrs
    }
}

/// The text of an inline annotation with every occurrence of the leading
/// bracket-group run removed.
pub open spec fn spec_inline_residue(text: Seq<char>) -> Seq<char> {
    remove_all(text, text.subrange(0, groups_end(text, 0)))
}

/// Length of the language code starting exactly at `i`, executably.
fn lang_len(s: &str, i: usize) -> (l: usize)
    requires
        i <= s@.len(),
    ensures
        l == lang_code_len_at(s@, i as int),
{
    let n = str_len(s);
    if n >= 4 && i <= n - 4 && char_at(s, i) == '[' && char_in_class(
        CharClass::AsciiAlpha,
        char_at(s, i + 1),
    ) && char_in_class(CharClass::AsciiAlpha, char_at(s, i + 2)) {
        if n >= 7 && i <= n - 7 && char_at(s, i + 3) == '-' && char_in_class(
            CharClass::AsciiAlpha,
            char_at(s, i + 4),
        ) && char_in_class(CharClass::AsciiAlpha, char_at(s, i + 5)) && char_at(s, i + 6) == ']' {
            5
        } else if char_at(s, i + 3) == ']' {
            2
        } else {
            0
        }
    } else {
        0
    }
}

/// Position of the first language annotation, executably.
fn scan_lang(s: &str) -> (p: usize)
    ensures
        p == find_lang(s@, 0),
        p <= s@.len(),
        p < s@.len() ==> lang_code_len_at(s@, p as int) > 0,
{
    let n = str_len(s);
    let mut i: usize = 0;
    while i < n && lang_len(s, i) == 0
        invariant
            i <= n,
            n == s@.len(),
            find_lang(s@, 0) == find_lang(s@, i as int),
        decreases n - i,
    {
        i = i + 1;
    }
    i
}

/// Whether a class/id group starts exactly at `i`, executably.
fn class_id_at(s: &str, i: usize) -> (r: bool)
    requires
        i <= s@.len(),
    ensures
        r == class_id_match(s@, i as int),
{
    let n = str_len(s);
    if i >= n || char_at(s, i) != '(' {
        return false;
    }
    let r = run_len(s, i + 1, CharClass::ClassTok);
    if i + 1 + r < n && char_at(s, i + 1 + r) == ')' {
        true
    } else if i + 1 + r < n && char_at(s, i + 1 + r) == '#' {
        let q = run_len(s, i + 2 + r, CharClass::IdTok);
        q >= 1 && i + 2 + r + q < n && char_at(s, i + 2 + r + q) == ')'
    } else {
        false
    }
}

/// Position of the first class/id group, executably.
fn scan_class_id(s: &str) -> (p: usize)
    ensures
        p == find_class_id(s@, 0),
        p <= s@.len(),
        p < s@.len() ==> class_id_match(s@, p as int),
{
    let n = str_len(s);
    let mut i: usize = 0;
    while i < n && !class_id_at(s, i)
        invariant
            i <= n,
            n == s@.len(),
            find_class_id(s@, 0) == find_class_id(s@, i as int),
        decreases n - i,
    {
        i = i + 1;
    }
    i
}

/// Length of the content of a CSS group starting exactly at `i`, executably.
fn css_len(s: &str, i: usize) -> (l: usize)
    requires
        i <= s@.len(),
    ensures
        l == css_content_len_at(s@, i as int),
        i + l <= s@.len(),
{
    let n = str_len(s);
    if i >= n || char_at(s, i) != '{' {
        return 0;
    }
    let r = run_len(s, i + 1, CharClass::NonBrace);
    if r >= 1 && i + 1 + r < n && char_at(s, i + 1 + r) == '}' {
        r
    } else {
        0
    }
}

/// Position of the first CSS group, executably.
fn scan_css(s: &str) -> (p: usize)
    ensures
        p == find_css(s@, 0),
        p <= s@.len(),
        p < s@.len() ==> css_content_len_at(s@, p as int) > 0,
{
    let n = str_len(s);
    let mut i: usize = 0;
    while i < n && css_len(s, i) == 0
        invariant
            i <= n,
            n == s@.len(),
            find_css(s@, 0) == find_css(s@, i as int),
        decreases n - i,
    {
        i = i + 1;
    }
    i
}

/// The class token list split on runs of spaces, executably.
fn split_class_exec(s: &str) -> (r: Vec<String>)
    ensures
        strings_view(r@) == split_class(s@, 0),
{
    let n = str_len(s);
    let mut out: Vec<String> = Vec::new();
    let mut from: usize = 0;
    proof {
        assert(strings_view(out@) + split_class(s@, 0) =~= split_class(s@, 0));
    }
    loop
        invariant
            from <= n,
            n == s@.len(),
            split_class(s@, 0) == strings_view(out@) + split_class(s@, from as int),
        decreases n - from,
    {
        let ghost pre = out@;
        let j = find_from(s, from, CharClass::Exact(' '));
        if j == n {
            out.push(substr_string(s, from, n));
            proof {
                assert(strings_view(out@) =~= strings_view(pre).push(
                    s@.subrange(from as int, n as int),
                ));
                assert(strings_view(pre).push(s@.subrange(from as int, n as int))
                    =~= strings_view(pre) + split_class(s@, from as int));
                assert(strings_view(out@) =~= split_class(s@, 0));
            }
            return out;
        }
        proof {
            lemma_find_in(s@, from as int, CharClass::Exact(' '));
            lemma_run_len_at(s@, j as int, CharClass::Exact(' '));
        }
        let sp = run_len(s, j, CharClass::Exact(' '));
        out.push(substr_string(s, from, j));
        let ghost f0 = from as int;
        from = j + sp;
        proof {
            assert(sp >= 1);
            assert(strings_view(out@) =~= strings_view(pre).push(
                s@.subrange(f0, j as int),
            ));
            assert(split_class(s@, f0) == seq![s@.subrange(f0, j as int)] + split_class(
                s@,
                from as int,
            ));
            assert(strings_view(pre) + (seq![s@.subrange(f0, j as int)] + split_class(
                s@,
                from as int,
            )) =~= strings_view(out@) + split_class(s@, from as int));
        }
    }
}

/// The string split at every `;`, each `;` eating the spaces after it,
/// executably.
fn split_semis_exec(s: &str) -> (r: Vec<String>)
    ensures
        strings_view(r@) == split_semis(s@, 0),
{
    let n = str_len(s);
    let mut out: Vec<String> = Vec::new();
    let mut from: usize = 0;
    proof {
        assert(strings_view(out@) + split_semis(s@, 0) =~= split_semis(s@, 0));
    }
    loop
        invariant
            from <= n,
            n == s@.len(),
            split_semis(s@, 0) == strings_view(out@) + split_semis(s@, from as int),
        decreases n - from,
    {
        let ghost pre = out@;
        let j = find_from(s, from, CharClass::Exact(';'));
        if j == n {
            out.push(substr_string(s, from, n));
            proof {
                assert(strings_view(out@) =~= strings_view(pre).push(
                    s@.subrange(from as int, n as int),
                ));
                assert(strings_view(pre).push(s@.subrange(from as int, n as int))
                    =~= strings_view(pre) + split_semis(s@, from as int));
                assert(strings_view(out@) =~= split_semis(s@, 0));
            }
            return out;
        }
        let sp = run_len(s, j + 1, CharClass::Exact(' '));
        out.push(substr_string(s, from, j));
        let ghost f0 = from as int;
        from = j + 1 + sp;
        proof {
            assert(strings_view(out@) =~= strings_view(pre).push(
                s@.subrange(f0, j as int),
            ));
            assert(split_semis(s@, f0) == seq![s@.subrange(f0, j as int)] + split_semis(
                s@,
                from as int,
            ));
            assert(strings_view(pre) + (seq![s@.subrange(f0, j as int)] + split_semis(
                s@,
                from as int,
            )) =~= strings_view(out@) + split_semis(s@, from as int));
        }
    }
}

/// Length of the key of a CSS property starting exactly at `j`, executably.
fn css_key_len(f: &str, j: usize) -> (l: usize)
    requires
        j <= f@.len(),
    ensures
        l == css_key_len_at(f@, j as int),
{
    let n = str_len(f);
    let k = run_len(f, j, CharClass::CssKey);
    if k >= 1 && j + k < n && char_at(f, j + k) == ':' && n - (j + k + 1) >= 1 {
        k
    } else {
        0
    }
}

/// Position of the first CSS property of a field, executably.
fn scan_css_prop(f: &str) -> (p: usize)
    ensures
        p == find_css_prop(f@, 0),
        p <= f@.len(),
        p < f@.len() ==> css_key_len_at(f@, p as int) > 0,
{
    let n = str_len(f);
    let mut j: usize = 0;
    while j < n && css_key_len(f, j) == 0
        invariant
            j <= n,
            n == f@.len(),
            find_css_prop(f@, 0) == find_css_prop(f@, j as int),
        decreases n - j,
    {
        j = j + 1;
    }
    j
}

/// Sets `k` to `v` in the property list: overwritten in place when the key
/// is present, appended otherwise.
fn css_insert_vec(props: &mut Vec<(String, String)>, k: String, v: String)
    ensures
        style_view(final(props)@) == css_insert(style_view(old(props)@), k@, v@),
{
    let ghost pv = style_view(props@);
    let mut i: usize = 0;
    let n = props.len();
    while i < n
        invariant
            i <= n,
            n == props@.len(),
            props@ == old(props)@,
            pv == style_view(props@),
            key_index(pv, k@, 0) == key_index(pv, k@, i as int),
        decreases n - i,
    {
        let hit = props[i].0 == k;
        if hit {
            let pair = props.remove(i);
            props.insert(i, (pair.0, v));
            proof {
                assert(key_index(pv, k@, i as int) == i);
                assert(style_view(props@) =~= pv.update(i as int, (pv[i as int].0, v@)));
            }
            return;
        }
        i = i + 1;
    }
    props.push((k, v));
    proof {
        assert(key_index(pv, k@, 0) == pv.len());
        assert(style_view(props@) =~= pv.push((k@, v@)));
    }
}

/// Reads one field of a CSS group into the property list, executably.
fn css_field_exec(props: &mut Vec<(String, String)>, f: &str)
    ensures
        style_view(final(props)@) == css_field(style_view(old(props)@), f@),
{
    let n = str_len(f);
    let j = scan_css_prop(f);
    if j < n {
        let k = css_key_len(f, j);
        proof {
            lemma_run_len_at(f@, (j + k + 1) as int, CharClass::Exact(' '));
        }
        let sp = run_len(f, j + k + 1, CharClass::Exact(' '));
        let avail = n - (j + k + 1);
        let m = if sp > avail - 1 {
            avail - 1
        } else {
            sp
        };
        let key = substr_string(f, j, j + k);
        let value = substr_string(f, j + k + 1 + m, n);
        css_insert_vec(props, key, value);
    }
}

/// The CSS properties of the group content, executably.
fn css_props_exec(content: &str) -> (r: Vec<(String, String)>)
    ensures
        style_view(r@) == css_fold(Seq::empty(), split_semis(content@, 0), 0),
{
    let fields = split_semis_exec(content);
    let mut props: Vec<(String, String)> = Vec::new();
    let mut k: usize = 0;
    proof {
        assert(style_view(props@) =~= Seq::<(Seq<char>, Seq<char>)>::empty());
    }
    while k < fields.len()
        invariant
            k <= fields@.len(),
            strings_view(fields@) == split_semis(content@, 0),
            css_fold(Seq::empty(), strings_view(fields@), 0) == css_fold(
                style_view(props@),
                strings_view(fields@),
                k as int,
            ),
        decreases fields@.len() - k,
    {
        let f = &fields[k];
        css_field_exec(&mut props, f.as_str());
        k = k + 1;
    }
    props
}

/// The language, class and id attributes of an annotation string,
/// executably.
fn lci_attrs_exec(s: &str) -> (r: Attributes)
    ensures
        attrs_view(r@) == spec_lci_attrs(s@),
{
    let n = str_len(s);
    let mut attrs: Attributes = Vec::new();
    let p = scan_lang(s);
    if p < n {
        let l = lang_len(s, p);
        attrs.push(Attribute::Language(substr_string(s, p + 1, p + 1 + l)));
    }
    let q = scan_class_id(s);
    if q < n {
        proof {
            lemma_run_len_at(s@, q + 1, CharClass::ClassTok);
        }
        let r = run_len(s, q + 1, CharClass::ClassTok);
        if r > 0 {
            let classes = split_class_exec(substr(s, q + 1, q + 1 + r));
            attrs.push(Attribute::Class(classes));
        }
        let has_id = !(q + 1 + r < n && char_at(s, q + 1 + r) == ')');
        if has_id {
            proof {
                lemma_run_len_at(s@, q + 2 + r, CharClass::IdTok);
            }
            let idl = run_len(s, q + 2 + r, CharClass::IdTok);
            attrs.push(Attribute::Id(substr_string(s, q + 2 + r, q + 2 + r + idl)));
        }
    }
    proof {
        assert(attrs_view(attrs@) =~= spec_lci_attrs(s@));
    }
    attrs
}

/// The residue of an annotation string, executably.
fn residue_exec(s: &str) -> (r: String)
    ensures
        r@ == spec_residue(s@),
{
    let n = str_len(s);
    let p = scan_lang(s);
    let w1 = if p < n {
        let l = lang_len(s, p);
        remove_all_str(s, substr(s, p + 1, p + 1 + l))
    } else {
        String::from_str(s)
    };
    let q = scan_class_id(s);
    let w2 = if q < n {
        proof {
            lemma_run_len_at(s@, q + 1, CharClass::ClassTok);
        }
        let r = run_len(s, q + 1, CharClass::ClassTok);
        let has_id = !(q + 1 + r < n && char_at(s, q + 1 + r) == ')');
        let total = if has_id {
            proof {
                lemma_run_len_at(s@, q + 2 + r, CharClass::IdTok);
            }
            let idl = run_len(s, q + 2 + r, CharClass::IdTok);
            r + idl + 3
        } else {
            r + 2
        };
        remove_all_str(w1.as_str(), substr(s, q, q + total))
    } else {
        w1
    };
    let c = scan_css(s);
    if c < n {
        let l = css_len(s, c);
        remove_all_str(w2.as_str(), substr(s, c, c + l + 2))
    } else {
        w2
    }
}

/// The CSS properties of an annotation string, executably.
fn css_exec(s: &str) -> (r: Vec<(String, String)>)
    ensures
        style_view(r@) == spec_css(s@),
{
    let n = str_len(s);
    let c = scan_css(s);
    if c < n {
        css_props_exec(substr(s, c + 1, c + 1 + css_len(s, c)))
    } else {
        Vec::new()
    }
}

/// Resolves the attribute annotation of a block marker.  Returns the
/// language, class and id attributes of the annotation and, when any CSS
/// property, padding run or alignment marker is present, one style
/// attribute carrying them all.
pub fn parse_block_attributes(attrs_str: &str) -> (r: Attributes)
    ensures
        attrs_view(r@) == spec_block_attributes(attrs_str@),
{
    let mut attrs = lci_attrs_exec(attrs_str);
    let mut css = css_exec(attrs_str);
    let w = residue_exec(attrs_str);
    let ws = w.as_str();
    let wn = str_len(ws);
    proof {
        assert(ws@ == spec_residue(attrs_str@));
    }
    let p = find_from(ws, 0, CharClass::Paren);
    if p < wn {
        let c0 = char_at(ws, p);
        let run = run_len(ws, p, CharClass::Exact(c0));
        let key = if c0 == '(' {
            "padding-left"
        } else {
            "padding-right"
        };
        let mut value = dec_string(run);
        value.append("em");
        css_insert_vec(&mut css, String::from_str(key), value);
    }
    let a = find_from(ws, 0, CharClass::AlignMark);
    if a < wn {
        let two = a + 1 < wn && char_in_class(CharClass::AlignMark, char_at(ws, a + 1));
        let c0 = char_at(ws, a);
        let value = if !two && c0 == '>' {
            "right"
        } else if two && c0 == '<' && char_at(ws, a + 1) == '>' {
            "justify"
        } else if !two && c0 == '=' {
            "center"
        } else {
            "left"
        };
        css_insert_vec(&mut css, String::from_str("text-align"), String::from_str(value));
    }
    if css.len() > 0 {
        let ghost before = attrs@;
        attrs.push(Attribute::Style(css));
        proof {
            assert(attrs_view(attrs@) =~= attrs_view(before).push(
                AttrV::Style(spec_block_css(attrs_str@, spec_residue(attrs_str@))),
            ));
        }
    }
    attrs
}

/// End of the run of bracket groups starting at `from`, executably.
pub(crate) fn groups_end_exec(s: &str, from: usize) -> (g: usize)
    requires
        from <= s@.len(),
    ensures
        g == groups_end(s@, from as int),
        from <= g <= s@.len(),
{
    let n = str_len(s);
    let mut p: usize = from;
    loop
        invariant
            from <= p <= n,
            n == s@.len(),
            groups_end(s@, from as int) == groups_end(s@, p as int),
        decreases n - p,
    {
        if !(p < n && char_in_class(CharClass::OpenBracket, char_at(s, p))) {
            return p;
        }
        if n - p < 2 {
            return p;
        }
        let q = find_from(s, p + 2, CharClass::CloseBracket);
        if q < n {
            p = q + 1;
        } else {
            return p;
        }
    }
}

/// Resolves the attribute annotation at the head of an inline element's
/// content.  Returns the attributes of the leading run of bracket groups
/// and the content with that run removed.
pub fn parse_inline_attributes(text: &str) -> (r: (Attributes, String))
    ensures
        attrs_view(r.0@) == spec_inline_attrs(text@),
        r.1@ == spec_inline_residue(text@),
{
    let g = groups_end_exec(text, 0);
    let a = substr(text, 0, g);
    let mut attrs = lci_attrs_exec(a);
    let css = css_exec(a);
    if css.len() > 0 {
        let ghost before = attrs@;
        attrs.push(Attribute::Style(css));
        proof {
            assert(attrs_view(attrs@) =~= attrs_view(before).push(AttrV::Style(spec_css(a@))));
        }
    }
    let residue = remove_all_str(text, a);
    (attrs, residue)
}

} // verus!
