//! The Fountain grammar: title page fields and screenplay elements.
//!
//! Each rule is stated as a spec function over the input characters `s` and
//! a position `i`: it gives `None` where the rule does not match at `i`, and
//! otherwise the position after what it read, with what it read (character
//! ranges `(start, end)` into `s`, or the element itself).
use vstd::prelude::*;
use crate::document::{
    dedup_fields, distinct_keys, elements_view, field_lookup, fields_view, key_index, lemma_dedup_fields,
    upsert_field, strings_view, Action, Dialogue, FarceDocument, FarceElement,
    SDocument, SElement, SceneHeading, TitlePage,
};
use crate::text::{
    all_ws, chars_of, in_class, is_ascii_alnum, is_ws, join, lemma_scan_back_facts,
    lemma_scan_facts, push_char, push_range, scan, scan_back, scan_class, string_of_range, trim,
    trim_range, CharClass,
};

verus! {

/// A parser found no way to read its input.
#[derive(Debug, Clone, Copy, PartialEq, Eq)]
pub enum ParseError {
    NoMatch,
}

/// The texts of the ranges `rs` of `s`.
pub open spec fn range_texts(s: Seq<char>, rs: Seq<(int, int)>) -> Seq<Seq<char>> {
    rs.map_values(|r: (int, int)| s.subrange(r.0, r.1))
}

/// `"\n"` or `"\r\n"` at `i`; the position after it.
pub open spec fn line_ending(s: Seq<char>, i: int) -> Option<int> {
    if 0 <= i < s.len() && s[i] == '\n' {
        Some(i + 1)
    } else if 0 <= i && i + 1 < s.len() && s[i] == '\r' && s[i + 1] == '\n' {
        Some(i + 2)
    } else {
        None
    }
}

/// A line ending at `i`, or the end of the input.
pub open spec fn eol_or_eof(s: Seq<char>, i: int) -> Option<int> {
    match line_ending(s, i) {
        Some(e) => Some(e),
        None => if i == s.len() {
            Some(i)
        } else {
            None
        },
    }
}

/// The rest of the line from `i`: the position of its line ending (or of the
/// end of input). A `'\r'` not followed by `'\n'` makes it fail.
pub open spec fn not_line_ending(s: Seq<char>, i: int) -> Option<int> {
    let j = scan(s, i, CharClass::LineChar);
    if j < s.len() && s[j] == '\r' && !(j + 1 < s.len() && s[j + 1] == '\n') {
        None
    } else {
        Some(j)
    }
}

/// A line of at least one character, not all whitespace, followed by a line
/// ending or the end of input; the end of its text.
pub open spec fn nonempty_line(s: Seq<char>, i: int) -> Option<int> {
    let j = scan(s, i, CharClass::LineChar);
    if j <= i || eol_or_eof(s, j) is None || all_ws(s.subrange(i, j)) {
        None
    } else {
        Some(j)
    }
}

/// A nonempty line and its line ending if there is one: the position after
/// both, and the end of the line's text.
pub open spec fn text_line(s: Seq<char>, i: int) -> Option<(int, int)> {
    match nonempty_line(s, i) {
        Some(j) => match line_ending(s, j) {
            Some(e) => Some((e, j)),
            None => Some((j, j)),
        },
        None => None,
    }
}

/// As many text lines as follow from `i`: where they end, and the range of
/// each line's text.
pub open spec fn text_lines(s: Seq<char>, i: int) -> (int, Seq<(int, int)>)
    decreases s.len() - i,
{
    match text_line(s, i) {
        Some((n, j)) => if i < n <= s.len() {
            let rest = text_lines(s, n);
            (rest.0, seq![(i, j)] + rest.1)
        } else {
            (i, Seq::empty())
        },
        None => (i, Seq::empty()),
    }
}

/// `EXT.` or `INT.`, then any whitespace (newlines too), then the rest of the
/// line as the heading's text.
pub open spec fn scene_heading(s: Seq<char>, i: int) -> Option<(int, SElement)> {
    if 0 <= i && i + 4 <= s.len() && ((s[i] == 'I' && s[i + 1] == 'N' && s[i + 2] == 'T') || (
    s[i] == 'E' && s[i + 1] == 'X' && s[i + 2] == 'T')) && s[i + 3] == '.' {
        let p = scan(s, i + 4, CharClass::Multispace);
        match not_line_ending(s, p) {
            Some(q) => match eol_or_eof(s, q) {
                Some(e) => Some(
                    (
                        e,
                        SElement::SceneHeading {
                            int_or_ext: s.subrange(i, i + 3),
                            text: s.subrange(p, q),
                        },
                    ),
                ),
                None => None,
            },
            None => None,
        }
    } else {
        None
    }
}

/// `(` then at least one character other than `)` then `)`, then spaces and
/// tabs: the position after, and the range inside the parentheses.
pub open spec fn character_extension(s: Seq<char>, i: int) -> Option<(int, (int, int))> {
    if 0 <= i < s.len() && s[i] == '(' {
        let j = scan(s, i + 1, CharClass::NotCloseParen);
        if j > i + 1 && j < s.len() && s[j] == ')' {
            Some((scan(s, j + 1, CharClass::SpaceTab), (i + 1, j)))
        } else {
            None
        }
    } else {
        None
    }
}

/// As many character extensions as follow from `i`.
pub open spec fn character_extensions(s: Seq<char>, i: int) -> (int, Seq<(int, int)>)
    decreases s.len() - i,
{
    match character_extension(s, i) {
        Some((n, r)) => if i < n <= s.len() {
            let rest = character_extensions(s, n);
            (rest.0, seq![r] + rest.1)
        } else {
            (i, Seq::empty())
        },
        None => (i, Seq::empty()),
    }
}

/// A character name: upper-case letters, digits and spaces starting with a
/// letter or digit; then spaces and tabs; then its extensions. The position
/// after, the range of the name (trailing spaces included), the extensions.
pub open spec fn character_name(s: Seq<char>, i: int) -> Option<(int, (int, int), Seq<(int, int)>)> {
    let j = scan(s, i, CharClass::NameChar);
    if 0 <= i && j > i && is_ascii_alnum(s[i]) {
        let k = scan(s, j, CharClass::SpaceTab);
        let exts = character_extensions(s, k);
        Some((exts.0, (i, j), exts.1))
    } else {
        None
    }
}

/// A character name, a line ending, then one or more text lines joined by
/// spaces.
pub open spec fn dialogue(s: Seq<char>, i: int) -> Option<(int, SElement)> {
    match character_name(s, i) {
        Some((j, name, exts)) => match line_ending(s, j) {
            Some(e) => if text_line(s, e) is Some {
                let lines = text_lines(s, e);
                Some(
                    (
                        lines.0,
                        SElement::Dialogue {
                            name: s.subrange(name.0, name.1),
                            extensions: range_texts(s, exts),
                            text: join(range_texts(s, lines.1), seq![' ']),
                        },
                    ),
                )
            } else {
                None
            },
            None => None,
        },
        None => None,
    }
}

/// One or more text lines joined by newlines.
pub open spec fn action(s: Seq<char>, i: int) -> Option<(int, SElement)> {
    if text_line(s, i) is Some {
        let lines = text_lines(s, i);
        Some(
            (
                lines.0,
                SElement::Action { is_centered: false, text: join(range_texts(s, lines.1), seq!['\n']) },
            ),
        )
    } else {
        None
    }
}

/// `>`, text without `<` on one line, `<`, then a line ending or the end of
/// input; the text is trimmed.
pub open spec fn centered_action(s: Seq<char>, i: int) -> Option<(int, SElement)> {
    if 0 <= i < s.len() && s[i] == '>' {
        let j = scan(s, i + 1, CharClass::NotCenterEnd);
        if j > i + 1 && j < s.len() && s[j] == '<' {
            match eol_or_eof(s, j + 1) {
                Some(e) => Some(
                    (e, SElement::Action { is_centered: true, text: trim(s.subrange(i + 1, j)) }),
                ),
                None => None,
            }
        } else {
            None
        }
    } else {
        None
    }
}

/// Three or more `=`, then a line ending or the end of input.
pub open spec fn page_break(s: Seq<char>, i: int) -> Option<(int, SElement)> {
    let j = scan(s, i, CharClass::Equals);
    if 0 <= i && j >= i + 3 {
        match eol_or_eof(s, j) {
            Some(e) => Some((e, SElement::PageBreak)),
            None => None,
        }
    } else {
        None
    }
}

/// The first of scene heading, dialogue, page break, centered action and
/// action that matches at `i`, then the newlines after it.
pub open spec fn element(s: Seq<char>, i: int) -> Option<(int, SElement)> {
    let r = match scene_heading(s, i) {
        Some(r) => Some(r),
        None => match dialogue(s, i) {
            Some(r) => Some(r),
            None => match page_break(s, i) {
                Some(r) => Some(r),
                None => match centered_action(s, i) {
                    Some(r) => Some(r),
                    None => action(s, i),
                },
            },
        },
    };
    match r {
        Some((e, el)) => Some((scan(s, e, CharClass::Newline), el)),
        None => None,
    }
}

/// As many elements as follow from `i`.
pub open spec fn elements(s: Seq<char>, i: int) -> (int, Seq<SElement>)
    decreases s.len() - i,
{
    match element(s, i) {
        Some((n, el)) => if i < n <= s.len() {
            let rest = elements(s, n);
            (rest.0, seq![el] + rest.1)
        } else {
            (i, Seq::empty())
        },
        None => (i, Seq::empty()),
    }
}

/// The key of a field whose value starts on the next line (`Notes:`):
/// characters up to a `:`, then spaces and tabs, then a line ending.
pub open spec fn multiline_field_key(s: Seq<char>, i: int) -> Option<(int, (int, int))> {
    let j = scan(s, i, CharClass::NotColon);
    if 0 <= i && j > i && j < s.len() && s[j] == ':' {
        match line_ending(s, scan(s, j + 1, CharClass::SpaceTab)) {
            Some(e) => Some((e, (i, j))),
            None => None,
        }
    } else {
        None
    }
}

/// An indented value line: spaces or tabs, the rest of the line, a line
/// ending. The range of the text after the indentation.
pub open spec fn multiline_field_line(s: Seq<char>, i: int) -> Option<(int, (int, int))> {
    let j = scan(s, i, CharClass::SpaceTab);
    if j > i {
        match not_line_ending(s, j) {
            Some(q) => match line_ending(s, q) {
                Some(e) => Some((e, (j, q))),
                None => None,
            },
            None => None,
        }
    } else {
        None
    }
}

/// As many indented value lines as follow from `i`.
pub open spec fn multiline_field_lines(s: Seq<char>, i: int) -> (int, Seq<(int, int)>)
    decreases s.len() - i,
{
    match multiline_field_line(s, i) {
        Some((n, r)) => if i < n <= s.len() {
            let rest = multiline_field_lines(s, n);
            (rest.0, seq![r] + rest.1)
        } else {
            (i, Seq::empty())
        },
        None => (i, Seq::empty()),
    }
}

/// A field whose value is one or more indented lines, joined by newlines.
pub open spec fn multiline_field(s: Seq<char>, i: int) -> Option<(int, (Seq<char>, Seq<char>))> {
    match multiline_field_key(s, i) {
        Some((e, key)) => if multiline_field_line(s, e) is Some {
            let lines = multiline_field_lines(s, e);
            Some((lines.0, (s.subrange(key.0, key.1), join(range_texts(s, lines.1), seq!['\n']))))
        } else {
            None
        },
        None => None,
    }
}

/// A one-line field `Key: value`: the key up to the first `:`, then `": "`,
/// then the rest of the line, then a line ending.
pub open spec fn simple_field(s: Seq<char>, i: int) -> Option<(int, (Seq<char>, Seq<char>))> {
    let j = scan(s, i, CharClass::NotColon);
    if 0 <= i && j > i && j + 1 < s.len() && s[j] == ':' && s[j + 1] == ' ' {
        match not_line_ending(s, j + 2) {
            Some(q) => match line_ending(s, q) {
                Some(e) => Some((e, (s.subrange(i, j), s.subrange(j + 2, q)))),
                None => None,
            },
            None => None,
        }
    } else {
        None
    }
}

/// A one-line field, else a multi-line field.
pub open spec fn title_field(s: Seq<char>, i: int) -> Option<(int, (Seq<char>, Seq<char>))> {
    match simple_field(s, i) {
        Some(r) => Some(r),
        None => multiline_field(s, i),
    }
}

/// As many title page fields as follow from `i`.
pub open spec fn title_fields(s: Seq<char>, i: int) -> (int, Seq<(Seq<char>, Seq<char>)>)
    decreases s.len() - i,
{
    match title_field(s, i) {
        Some((n, f)) => if i < n <= s.len() {
            let rest = title_fields(s, n);
            (rest.0, seq![f] + rest.1)
        } else {
            (i, Seq::empty())
        },
        None => (i, Seq::empty()),
    }
}

/// One or more title page fields, then the newlines after them.
pub open spec fn title_page(s: Seq<char>, i: int) -> Option<(int, Seq<(Seq<char>, Seq<char>)>)> {
    if title_field(s, i) is Some {
        let fs = title_fields(s, i);
        Some((scan(s, fs.0, CharClass::Newline), fs.1))
    } else {
        None
    }
}

/// A whole Fountain document: a title page if one can be read, then the
/// elements; where reading stopped, and the document.
pub open spec fn fountain(s: Seq<char>) -> (int, SDocument) {
    let tp = title_page(s, 0);
    let start = match tp {
        Some((e, _)) => e,
        None => 0,
    };
    let els = elements(s, start);
    (
        els.0,
        SDocument {
            title_page: match tp {
                Some((_, fs)) => Some(dedup_fields(fs)),
                None => None,
            },
            elements: els.1,
        },
    )
}

} // verus!

verus! {

pub open spec fn opt_int(r: Option<usize>) -> Option<int> {
    match r {
        Some(n) => Some(n as int),
        None => None,
    }
}

pub open spec fn range_int(r: (usize, usize)) -> (int, int) {
    (r.0 as int, r.1 as int)
}

pub open spec fn ranges_int(v: Seq<(usize, usize)>) -> Seq<(int, int)> {
    v.map_values(|r: (usize, usize)| range_int(r))
}

pub open spec fn ranges_within(v: Seq<(usize, usize)>, len: int) -> bool {
    forall|k: int| 0 <= k < v.len() ==> #[trigger] v[k].0 <= v[k].1 && v[k].1 <= len
}

fn line_ending_exec(s: &Vec<char>, i: usize) -> (r: Option<usize>)
    requires
        i <= s.len(),
    ensures
        opt_int(r) == line_ending(s@, i as int),
        r matches Some(e) ==> i < e <= s.len(),
{
    if i < s.len() && s[i] == '\n' {
        Some(i + 1)
    } else if i < s.len() && s[i] == '\r' && i + 1 < s.len() && s[i + 1] == '\n' {
        Some(i + 2)
    } else {
        None
    }
}

fn eol_or_eof_exec(s: &Vec<char>, i: usize) -> (r: Option<usize>)
    requires
        i <= s.len(),
    ensures
        opt_int(r) == eol_or_eof(s@, i as int),
        r matches Some(e) ==> i <= e <= s.len(),
{
    match line_ending_exec(s, i) {
        Some(e) => Some(e),
        None => if i == s.len() {
            Some(i)
        } else {
            None
        },
    }
}

fn not_line_ending_exec(s: &Vec<char>, i: usize) -> (r: Option<usize>)
    requires
        i <= s.len(),
    ensures
        opt_int(r) == not_line_ending(s@, i as int),
        r matches Some(j) ==> i <= j <= s.len(),
{
    let j = scan_class(s, i, CharClass::LineChar);
    if j < s.len() && s[j] == '\r' && !(j + 1 < s.len() && s[j + 1] == '\n') {
        None
    } else {
        Some(j)
    }
}

/// Whether `s[i..j]` is all whitespace.
fn all_ws_exec(s: &Vec<char>, i: usize, j: usize) -> (r: bool)
    requires
        i <= j <= s.len(),
    ensures
        r == all_ws(s@.subrange(i as int, j as int)),
{
    let k = scan_class(s, i, CharClass::Whitespace);
    proof {
        lemma_scan_facts(s@, i as int, CharClass::Whitespace);
        let t = s@.subrange(i as int, j as int);
        if k >= j {
            assert forall|m: int| 0 <= m < t.len() implies is_ws(#[trigger] t[m]) by {
                assert(in_class(CharClass::Whitespace, s@[i + m]));
            }
        } else {
            assert(!is_ws(t[k - i]));
        }
    }
    k >= j
}

fn nonempty_line_exec(s: &Vec<char>, i: usize) -> (r: Option<usize>)
    requires
        i <= s.len(),
    ensures
        opt_int(r) == nonempty_line(s@, i as int),
        r matches Some(j) ==> i < j <= s.len(),
{
    let j = scan_class(s, i, CharClass::LineChar);
    if j <= i {
        return None;
    }
    if eol_or_eof_exec(s, j).is_none() {
        return None;
    }
    if all_ws_exec(s, i, j) {
        return None;
    }
    Some(j)
}

fn text_line_exec(s: &Vec<char>, i: usize) -> (r: Option<(usize, usize)>)
    requires
        i <= s.len(),
    ensures
        match r {
            Some((n, j)) => text_line(s@, i as int) == Some((n as int, j as int)) && i < j <= n
                <= s.len(),
            None => text_line(s@, i as int) is None,
        },
{
    match nonempty_line_exec(s, i) {
        Some(j) => match line_ending_exec(s, j) {
            Some(e) => Some((e, j)),
            None => Some((j, j)),
        },
        None => None,
    }
}

fn text_lines_exec(s: &Vec<char>, i: usize) -> (r: (usize, Vec<(usize, usize)>))
    requires
        i <= s.len(),
    ensures
        r.0 == text_lines(s@, i as int).0,
        ranges_int(r.1@) == text_lines(s@, i as int).1,
        ranges_within(r.1@, s.len() as int),
        i <= r.0 <= s.len(),
        text_line(s@, i as int) is Some ==> i < r.0,
{
    let mut acc: Vec<(usize, usize)> = Vec::new();
    let mut cur = i;
    loop
        invariant
            i <= cur <= s.len(),
            acc.len() == 0 ==> cur == i,
            acc.len() > 0 ==> i < cur,
            text_lines(s@, i as int).0 == text_lines(s@, cur as int).0,
            text_lines(s@, i as int).1 == ranges_int(acc@) + text_lines(s@, cur as int).1,
            ranges_within(acc@, s.len() as int),
        decreases s.len() - cur,
    {
        match text_line_exec(s, cur) {
            Some((n, j)) => {
                let ghost old_acc = acc@;
                acc.push((cur, j));
                assert(ranges_int(acc@) =~= ranges_int(old_acc) + seq![(cur as int, j as int)]);
                cur = n;
            },
            None => {
                assert(ranges_int(acc@) + text_lines(s@, cur as int).1 =~= ranges_int(acc@));
                return (cur, acc);
            },
        }
    }
}

/// The texts of `ranges` of `s` joined by `sep`.
fn join_ranges(s: &Vec<char>, ranges: &Vec<(usize, usize)>, sep: char) -> (r: String)
    requires
        ranges_within(ranges@, s.len() as int),
    ensures
        r@ == join(range_texts(s@, ranges_int(ranges@)), seq![sep]),
{
    let ghost parts = range_texts(s@, ranges_int(ranges@));
    let mut out = String::new();
    let mut k: usize = 0;
    assert(parts.take(0) =~= Seq::<Seq<char>>::empty());
    while k < ranges.len()
        invariant
            k <= ranges.len(),
            parts == range_texts(s@, ranges_int(ranges@)),
            ranges_within(ranges@, s.len() as int),
            out@ == join(parts.take(k as int), seq![sep]),
        decreases ranges.len() - k,
    {
        let (lo, hi) = ranges[k];
        proof {
            assert(ranges@[k as int].0 <= ranges@[k as int].1 <= s.len());
        }
        let ghost before = out@;
        if k > 0 {
            push_char(&mut out, sep);
        }
        push_range(&mut out, s, lo, hi);
        proof {
            let t = parts.take(k + 1);
            assert(t.drop_last() =~= parts.take(k as int));
            assert(t.last() == s@.subrange(lo as int, hi as int));
            assert(out@ =~= join(t, seq![sep]));
        }
        k = k + 1;
    }
    assert(parts.take(ranges.len() as int) =~= parts);
    out
}

} // verus!

verus! {

/// The texts of `ranges` of `s`, one string each.
fn strings_of_ranges(s: &Vec<char>, ranges: &Vec<(usize, usize)>) -> (r: Vec<String>)
    requires
        ranges_within(ranges@, s.len() as int),
    ensures
        strings_view(r@) == range_texts(s@, ranges_int(ranges@)),
{
    let mut out: Vec<String> = Vec::new();
    let mut k: usize = 0;
    while k < ranges.len()
        invariant
            k <= ranges.len(),
            ranges_within(ranges@, s.len() as int),
            out.len() == k,
            forall|m: int|
                0 <= m < k ==> #[trigger] out@[m]@ == s@.subrange(
                    ranges@[m].0 as int,
                    ranges@[m].1 as int,
                ),
        decreases ranges.len() - k,
    {
        let (lo, hi) = ranges[k];
        proof {
            assert(ranges@[k as int].0 <= ranges@[k as int].1 <= s.len());
        }
        out.push(string_of_range(s, lo, hi));
        k = k + 1;
    }
    assert(strings_view(out@) =~= range_texts(s@, ranges_int(ranges@)));
    out
}

fn scene_heading_exec(s: &Vec<char>, i: usize) -> (r: Option<(usize, FarceElement)>)
    requires
        i <= s.len(),
    ensures
        match r {
            Some((e, el)) => scene_heading(s@, i as int) == Some((e as int, el@)) && i < e <= s.len(),
            None => scene_heading(s@, i as int) is None,
        },
{
    if !(i < s.len() && s.len() - i >= 4) {
        return None;
    }
    if !(((s[i] == 'I' && s[i + 1] == 'N' && s[i + 2] == 'T') || (s[i] == 'E' && s[i + 1] == 'X'
        && s[i + 2] == 'T')) && s[i + 3] == '.') {
        return None;
    }
    let p = scan_class(s, i + 4, CharClass::Multispace);
    let q = match not_line_ending_exec(s, p) {
        Some(q) => q,
        None => return None,
    };
    let e = match eol_or_eof_exec(s, q) {
        Some(e) => e,
        None => return None,
    };
    let h = SceneHeading { int_or_ext: string_of_range(s, i, i + 3), text: string_of_range(s, p, q) };
    Some((e, FarceElement::FSceneHeading(h)))
}

fn character_extension_exec(s: &Vec<char>, i: usize) -> (r: Option<(usize, (usize, usize))>)
    requires
        i <= s.len(),
    ensures
        match r {
            Some((n, rg)) => character_extension(s@, i as int) == Some((n as int, range_int(rg)))
                && i < n <= s.len() && rg.0 <= rg.1 <= s.len(),
            None => character_extension(s@, i as int) is None,
        },
{
    if !(i < s.len() && s[i] == '(') {
        return None;
    }
    let j = scan_class(s, i + 1, CharClass::NotCloseParen);
    if j > i + 1 && j < s.len() && s[j] == ')' {
        let n = scan_class(s, j + 1, CharClass::SpaceTab);
        Some((n, (i + 1, j)))
    } else {
        None
    }
}

fn character_extensions_exec(s: &Vec<char>, i: usize) -> (r: (usize, Vec<(usize, usize)>))
    requires
        i <= s.len(),
    ensures
        r.0 == character_extensions(s@, i as int).0,
        ranges_int(r.1@) == character_extensions(s@, i as int).1,
        ranges_within(r.1@, s.len() as int),
        i <= r.0 <= s.len(),
{
    let mut acc: Vec<(usize, usize)> = Vec::new();
    let mut cur = i;
    loop
        invariant
            i <= cur <= s.len(),
            character_extensions(s@, i as int).0 == character_extensions(s@, cur as int).0,
            character_extensions(s@, i as int).1 == ranges_int(acc@) + character_extensions(
                s@,
                cur as int,
            ).1,
            ranges_within(acc@, s.len() as int),
        decreases s.len() - cur,
    {
        match character_extension_exec(s, cur) {
            Some((n, rg)) => {
                let ghost old_acc = acc@;
                acc.push(rg);
                assert(ranges_int(acc@) =~= ranges_int(old_acc) + seq![range_int(rg)]);
                cur = n;
            },
            None => {
                assert(ranges_int(acc@) + character_extensions(s@, cur as int).1 =~= ranges_int(
                    acc@,
                ));
                return (cur, acc);
            },
        }
    }
}

fn character_name_exec(s: &Vec<char>, i: usize) -> (r: Option<(usize, (usize, usize), Vec<(usize, usize)>)>)
    requires
        i <= s.len(),
    ensures
        match r {
            Some((n, nm, exts)) => character_name(s@, i as int) == Some(
                (n as int, range_int(nm), ranges_int(exts@)),
            ) && i < n <= s.len() && nm.0 <= nm.1 <= s.len() && ranges_within(
                exts@,
                s.len() as int,
            ),
            None => character_name(s@, i as int) is None,
        },
{
    let j = scan_class(s, i, CharClass::NameChar);
    if j > i && (('A' <= s[i] && s[i] <= 'Z') || ('a' <= s[i] && s[i] <= 'z') || ('0' <= s[i]
        && s[i] <= '9')) {
        let k = scan_class(s, j, CharClass::SpaceTab);
        let (n, exts) = character_extensions_exec(s, k);
        Some((n, (i, j), exts))
    } else {
        None
    }
}

fn dialogue_exec(s: &Vec<char>, i: usize) -> (r: Option<(usize, FarceElement)>)
    requires
        i <= s.len(),
    ensures
        match r {
            Some((e, el)) => dialogue(s@, i as int) == Some((e as int, el@)) && i < e <= s.len(),
            None => dialogue(s@, i as int) is None,
        },
{
    let (j, name, exts) = match character_name_exec(s, i) {
        Some(t) => t,
        None => return None,
    };
    let e = match line_ending_exec(s, j) {
        Some(e) => e,
        None => return None,
    };
    if text_line_exec(s, e).is_none() {
        return None;
    }
    let (k, lines) = text_lines_exec(s, e);
    let d = Dialogue {
        character_name: string_of_range(s, name.0, name.1),
        character_extensions: strings_of_ranges(s, &exts),
        text: join_ranges(s, &lines, ' '),
    };
    Some((k, FarceElement::FDialogue(d)))
}

fn action_exec(s: &Vec<char>, i: usize) -> (r: Option<(usize, FarceElement)>)
    requires
        i <= s.len(),
    ensures
        match r {
            Some((e, el)) => action(s@, i as int) == Some((e as int, el@)) && i < e <= s.len(),
            None => action(s@, i as int) is None,
        },
{
    if text_line_exec(s, i).is_none() {
        return None;
    }
    let (k, lines) = text_lines_exec(s, i);
    let a = Action { is_centered: false, text: join_ranges(s, &lines, '\n') };
    Some((k, FarceElement::FAction(a)))
}

} // verus!

verus! {

fn centered_action_exec(s: &Vec<char>, i: usize) -> (r: Option<(usize, FarceElement)>)
    requires
        i <= s.len(),
    ensures
        match r {
            Some((e, el)) => centered_action(s@, i as int) == Some((e as int, el@)) && i < e
                <= s.len(),
            None => centered_action(s@, i as int) is None,
        },
{
    if !(i < s.len() && s[i] == '>') {
        return None;
    }
    let j = scan_class(s, i + 1, CharClass::NotCenterEnd);
    if !(j > i + 1 && j < s.len() && s[j] == '<') {
        return None;
    }
    let e = match eol_or_eof_exec(s, j + 1) {
        Some(e) => e,
        None => return None,
    };
    let (a, b) = trim_range(s, i + 1, j);
    let act = Action { is_centered: true, text: string_of_range(s, a, b) };
    Some((e, FarceElement::FAction(act)))
}

fn page_break_exec(s: &Vec<char>, i: usize) -> (r: Option<(usize, FarceElement)>)
    requires
        i <= s.len(),
    ensures
        match r {
            Some((e, el)) => page_break(s@, i as int) == Some((e as int, el@)) && i < e <= s.len(),
            None => page_break(s@, i as int) is None,
        },
{
    let j = scan_class(s, i, CharClass::Equals);
    if j - i < 3 {
        return None;
    }
    match eol_or_eof_exec(s, j) {
        Some(e) => Some((e, FarceElement::FPageBreak)),
        None => None,
    }
}

fn element_exec(s: &Vec<char>, i: usize) -> (r: Option<(usize, FarceElement)>)
    requires
        i <= s.len(),
    ensures
        match r {
            Some((e, el)) => element(s@, i as int) == Some((e as int, el@)) && i < e <= s.len(),
            None => element(s@, i as int) is None,
        },
{
    let found = match scene_heading_exec(s, i) {
        Some(r) => Some(r),
        None => match dialogue_exec(s, i) {
            Some(r) => Some(r),
            None => match page_break_exec(s, i) {
                Some(r) => Some(r),
                None => match centered_action_exec(s, i) {
                    Some(r) => Some(r),
                    None => action_exec(s, i),
                },
            },
        },
    };
    match found {
        Some((e, el)) => Some((scan_class(s, e, CharClass::Newline), el)),
        None => None,
    }
}

fn elements_exec(s: &Vec<char>, i: usize) -> (r: (usize, Vec<FarceElement>))
    requires
        i <= s.len(),
    ensures
        r.0 == elements(s@, i as int).0,
        elements_view(r.1@) == elements(s@, i as int).1,
        i <= r.0 <= s.len(),
{
    let mut acc: Vec<FarceElement> = Vec::new();
    let mut cur = i;
    loop
        invariant
            i <= cur <= s.len(),
            elements(s@, i as int).0 == elements(s@, cur as int).0,
            elements(s@, i as int).1 == elements_view(acc@) + elements(s@, cur as int).1,
        decreases s.len() - cur,
    {
        match element_exec(s, cur) {
            Some((n, el)) => {
                let ghost old_acc = acc@;
                let ghost v = el@;
                acc.push(el);
                assert(elements_view(acc@) =~= elements_view(old_acc) + seq![v]);
                cur = n;
            },
            None => {
                assert(elements_view(acc@) + elements(s@, cur as int).1 =~= elements_view(acc@));
                return (cur, acc);
            },
        }
    }
}

} // verus!

verus! {

fn multiline_field_key_exec(s: &Vec<char>, i: usize) -> (r: Option<(usize, (usize, usize))>)
    requires
        i <= s.len(),
    ensures
        match r {
            Some((e, k)) => multiline_field_key(s@, i as int) == Some((e as int, range_int(k))) && i
                < e <= s.len() && k.0 <= k.1 <= s.len(),
            None => multiline_field_key(s@, i as int) is None,
        },
{
    let j = scan_class(s, i, CharClass::NotColon);
    if !(j > i && j < s.len() && s[j] == ':') {
        return None;
    }
    let k = scan_class(s, j + 1, CharClass::SpaceTab);
    match line_ending_exec(s, k) {
        Some(e) => Some((e, (i, j))),
        None => None,
    }
}

fn multiline_field_line_exec(s: &Vec<char>, i: usize) -> (r: Option<(usize, (usize, usize))>)
    requires
        i <= s.len(),
    ensures
        match r {
            Some((e, k)) => multiline_field_line(s@, i as int) == Some((e as int, range_int(k))) && i
                < e <= s.len() && k.0 <= k.1 <= s.len(),
            None => multiline_field_line(s@, i as int) is None,
        },
{
    let j = scan_class(s, i, CharClass::SpaceTab);
    if j <= i {
        return None;
    }
    let q = match not_line_ending_exec(s, j) {
        Some(q) => q,
        None => return None,
    };
    match line_ending_exec(s, q) {
        Some(e) => Some((e, (j, q))),
        None => None,
    }
}

fn multiline_field_lines_exec(s: &Vec<char>, i: usize) -> (r: (usize, Vec<(usize, usize)>))
    requires
        i <= s.len(),
    ensures
        r.0 == multiline_field_lines(s@, i as int).0,
        ranges_int(r.1@) == multiline_field_lines(s@, i as int).1,
        ranges_within(r.1@, s.len() as int),
        i <= r.0 <= s.len(),
        multiline_field_line(s@, i as int) is Some ==> i < r.0,
{
    let mut acc: Vec<(usize, usize)> = Vec::new();
    let mut cur = i;
    loop
        invariant
            i <= cur <= s.len(),
            acc.len() == 0 ==> cur == i,
            acc.len() > 0 ==> i < cur,
            multiline_field_lines(s@, i as int).0 == multiline_field_lines(s@, cur as int).0,
            multiline_field_lines(s@, i as int).1 == ranges_int(acc@) + multiline_field_lines(
                s@,
                cur as int,
            ).1,
            ranges_within(acc@, s.len() as int),
        decreases s.len() - cur,
    {
        match multiline_field_line_exec(s, cur) {
            Some((n, rg)) => {
                let ghost old_acc = acc@;
                acc.push(rg);
                assert(ranges_int(acc@) =~= ranges_int(old_acc) + seq![range_int(rg)]);
                cur = n;
            },
            None => {
                assert(ranges_int(acc@) + multiline_field_lines(s@, cur as int).1 =~= ranges_int(
                    acc@,
                ));
                return (cur, acc);
            },
        }
    }
}

fn multiline_field_exec(s: &Vec<char>, i: usize) -> (r: Option<(usize, (String, String))>)
    requires
        i <= s.len(),
    ensures
        match r {
            Some((e, f)) => multiline_field(s@, i as int) == Some((e as int, (f.0@, f.1@))) && i < e
                <= s.len(),
            None => multiline_field(s@, i as int) is None,
        },
{
    let (e, key) = match multiline_field_key_exec(s, i) {
        Some(t) => t,
        None => return None,
    };
    if multiline_field_line_exec(s, e).is_none() {
        return None;
    }
    let (k, lines) = multiline_field_lines_exec(s, e);
    Some((k, (string_of_range(s, key.0, key.1), join_ranges(s, &lines, '\n'))))
}

fn simple_field_exec(s: &Vec<char>, i: usize) -> (r: Option<(usize, (String, String))>)
    requires
        i <= s.len(),
    ensures
        match r {
            Some((e, f)) => simple_field(s@, i as int) == Some((e as int, (f.0@, f.1@))) && i < e
                <= s.len(),
            None => simple_field(s@, i as int) is None,
        },
{
    let j = scan_class(s, i, CharClass::NotColon);
    if !(j > i && j < s.len() && j + 1 < s.len() && s[j] == ':' && s[j + 1] == ' ') {
        return None;
    }
    let q = match not_line_ending_exec(s, j + 2) {
        Some(q) => q,
        None => return None,
    };
    match line_ending_exec(s, q) {
        Some(e) => Some((e, (string_of_range(s, i, j), string_of_range(s, j + 2, q)))),
        None => None,
    }
}

fn title_field_exec(s: &Vec<char>, i: usize) -> (r: Option<(usize, (String, String))>)
    requires
        i <= s.len(),
    ensures
        match r {
            Some((e, f)) => title_field(s@, i as int) == Some((e as int, (f.0@, f.1@))) && i < e
                <= s.len(),
            None => title_field(s@, i as int) is None,
        },
{
    match simple_field_exec(s, i) {
        Some(r) => Some(r),
        None => multiline_field_exec(s, i),
    }
}

/// Writes `f` into `acc`: over the field with the same key where there is
/// one, else at the end.
fn upsert_field_exec(acc: &mut Vec<(String, String)>, f: (String, String))
    ensures
        fields_view(final(acc)@) == upsert_field(fields_view(old(acc)@), f.0@, f.1@),
{
    let ghost v = fields_view(acc@);
    let mut i = acc.len();
    assert(v.take(i as int) =~= v);
    while i > 0
        invariant
            i <= acc.len(),
            acc@ == old(acc)@,
            v == fields_view(acc@),
            key_index(v, f.0@) == key_index(v.take(i as int), f.0@),
        decreases i,
    {
        assert(v.take(i as int).drop_last() =~= v.take(i - 1));
        if acc[i - 1].0 == f.0 {
            let ghost kv = (f.0@, f.1@);
            acc.set(i - 1, f);
            assert(fields_view(acc@) =~= v.update(i - 1, kv));
            return;
        }
        i = i - 1;
    }
    let ghost kv = (f.0@, f.1@);
    acc.push(f);
    assert(fields_view(acc@) =~= v.push(kv));
}

fn title_fields_exec(s: &Vec<char>, i: usize) -> (r: (usize, Vec<(String, String)>))
    requires
        i <= s.len(),
    ensures
        r.0 == title_fields(s@, i as int).0,
        fields_view(r.1@) == dedup_fields(title_fields(s@, i as int).1),
        i <= r.0 <= s.len(),
{
    let mut acc: Vec<(String, String)> = Vec::new();
    let ghost mut seen: Seq<(Seq<char>, Seq<char>)> = Seq::empty();
    let mut cur = i;
    loop
        invariant
            i <= cur <= s.len(),
            title_fields(s@, i as int).0 == title_fields(s@, cur as int).0,
            title_fields(s@, i as int).1 == seen + title_fields(s@, cur as int).1,
            fields_view(acc@) == dedup_fields(seen),
        decreases s.len() - cur,
    {
        match title_field_exec(s, cur) {
            Some((n, f)) => {
                let ghost v = (f.0@, f.1@);
                upsert_field_exec(&mut acc, f);
                proof {
                    let old_seen = seen;
                    seen = seen.push(v);
                    assert(seen.drop_last() =~= old_seen);
                    assert(old_seen + title_fields(s@, cur as int).1 =~= seen + title_fields(
                        s@,
                        n as int,
                    ).1);
                }
                cur = n;
            },
            None => {
                assert(seen + title_fields(s@, cur as int).1 =~= seen);
                return (cur, acc);
            },
        }
    }
}

fn title_page_exec(s: &Vec<char>, i: usize) -> (r: Option<(usize, TitlePage)>)
    requires
        i <= s.len(),
    ensures
        match r {
            Some((e, tp)) => title_page(s@, i as int) matches Some((te, fs)) && te == e
                && fields_view(tp.fields@) == dedup_fields(fs) && i <= e <= s.len(),
            None => title_page(s@, i as int) is None,
        },
{
    if title_field_exec(s, i).is_none() {
        return None;
    }
    let (k, fields) = title_fields_exec(s, i);
    let e = scan_class(s, k, CharClass::Newline);
    Some((e, TitlePage { fields }))
}

fn fountain_exec(s: &Vec<char>) -> (r: (usize, FarceDocument))
    ensures
        r.0 == fountain(s@).0,
        r.1@ == fountain(s@).1,
        r.0 <= s.len(),
{
    let (start, tp) = match title_page_exec(s, 0) {
        Some((e, tp)) => (e, Some(tp)),
        None => (0, None),
    };
    let (end, els) = elements_exec(s, start);
    (end, FarceDocument { title_page: tp, elements: els })
}

} // verus!

verus! {

/// One element (see `element`) at the start of `input`, and the text after it.
pub fn parse_element(input: &str) -> (r: Result<(String, FarceElement), ParseError>)
    ensures
        match element(input@, 0) {
            Some((e, v)) => r matches Ok((rest, el)) && el@ == v && rest@ == input@.subrange(
                e,
                input@.len() as int,
            ),
            None => r == Err::<(String, FarceElement), ParseError>(ParseError::NoMatch),
        },
{
    let s = chars_of(input);
    match element_exec(&s, 0) {
        Some((e, el)) => Ok((string_of_range(&s, e, s.len()), el)),
        None => Err(ParseError::NoMatch),
    }
}

/// As many elements as can be read from the start of `input` (see
/// `elements`), and the text after them; this never fails.
pub fn parse_elements(input: &str) -> (r: Result<(String, Vec<FarceElement>), ParseError>)
    ensures
        r matches Ok((rest, els)) && elements_view(els@) == elements(input@, 0).1 && rest@
            == input@.subrange(elements(input@, 0).0, input@.len() as int),
{
    let s = chars_of(input);
    let (e, els) = elements_exec(&s, 0);
    Ok((string_of_range(&s, e, s.len()), els))
}

/// A dialogue (see `dialogue`) at the start of `input`, and the text after it.
pub fn parse_dialogue(input: &str) -> (r: Result<(String, FarceElement), ParseError>)
    ensures
        match dialogue(input@, 0) {
            Some((e, v)) => r matches Ok((rest, el)) && el@ == v && rest@ == input@.subrange(
                e,
                input@.len() as int,
            ),
            None => r == Err::<(String, FarceElement), ParseError>(ParseError::NoMatch),
        },
{
    let s = chars_of(input);
    match dialogue_exec(&s, 0) {
        Some((e, el)) => Ok((string_of_range(&s, e, s.len()), el)),
        None => Err(ParseError::NoMatch),
    }
}

/// A field with an indented multi-line value (see `multiline_field`) at the
/// start of `input`, and the text after it.
pub fn parse_multiline_titlepage_field(input: &str) -> (r: Result<(String, (String, String)), ParseError>)
    ensures
        match multiline_field(input@, 0) {
            Some((e, f)) => r matches Ok((rest, kv)) && (kv.0@, kv.1@) == f && rest@
                == input@.subrange(e, input@.len() as int),
            None => r == Err::<(String, (String, String)), ParseError>(ParseError::NoMatch),
        },
{
    let s = chars_of(input);
    match multiline_field_exec(&s, 0) {
        Some((e, f)) => Ok((string_of_range(&s, e, s.len()), f)),
        None => Err(ParseError::NoMatch),
    }
}

/// A title page (see `title_page`) at the start of `input`, and the text
/// after it.
pub fn parse_title_page(input: &str) -> (r: Result<(String, TitlePage), ParseError>)
    ensures
        match title_page(input@, 0) {
            Some((e, fs)) => r matches Ok((rest, tp)) && fields_view(tp.fields@) == dedup_fields(fs)
                && tp.well_formed() && rest@ == input@.subrange(e, input@.len() as int),
            None => r == Err::<(String, TitlePage), ParseError>(ParseError::NoMatch),
        },
{
    let s = chars_of(input);
    proof {
        if let Some((_, fs)) = title_page(input@, 0) {
            lemma_dedup_fields(fs, Seq::empty());
        }
    }
    match title_page_exec(&s, 0) {
        Some((e, tp)) => Ok((string_of_range(&s, e, s.len()), tp)),
        None => Err(ParseError::NoMatch),
    }
}

/// A whole Fountain document (see `fountain`): an optional title page, then
/// the elements; this never fails. The text after the last element is
/// handed back.
pub fn parse_fountain(input: &str) -> (r: Result<(String, FarceDocument), ParseError>)
    ensures
        r matches Ok((rest, doc)) && doc@ == fountain(input@).1 && rest@ == input@.subrange(
            fountain(input@).0,
            input@.len() as int,
        ) && (doc.title_page matches Some(tp) ==> tp.well_formed()),
{
    let s = chars_of(input);
    proof {
        lemma_title_page_fields(input@, Seq::empty());
    }
    let (e, doc) = fountain_exec(&s);
    Ok((string_of_range(&s, e, s.len()), doc))
}

} // verus!

verus! {

/// Every character of `s` is in class `cls`.
pub open spec fn all_in(s: Seq<char>, cls: CharClass) -> bool {
    forall|k: int| 0 <= k < s.len() ==> in_class(cls, #[trigger] s[k])
}

/// What every element read from Fountain text is like: a speaker's name is
/// a character name (upper-case letters, digits and spaces, starting with a
/// letter or digit), each extension is text without `)`, and the speech is
/// one line; a heading is `INT` or `EXT` with a one-line text; an action
/// holds no carriage return, and a centered one is a single line without
/// `<`.
pub open spec fn well_formed_element(e: SElement) -> bool {
    match e {
        SElement::Dialogue { name, extensions, text } => {
            &&& name.len() > 0
            &&& is_ascii_alnum(name[0])
            &&& all_in(name, CharClass::NameChar)
            &&& forall|k: int|
                0 <= k < extensions.len() ==> #[trigger] extensions[k].len() > 0 && all_in(
                    extensions[k],
                    CharClass::NotCloseParen,
                )
            &&& all_in(text, CharClass::LineChar)
        },
        SElement::SceneHeading { int_or_ext, text } => {
            &&& (int_or_ext == seq!['I', 'N', 'T'] || int_or_ext == seq!['E', 'X', 'T'])
            &&& all_in(text, CharClass::LineChar)
        },
        SElement::Action { is_centered, text } => if is_centered {
            all_in(text, CharClass::NotCenterEnd)
        } else {
            forall|k: int| 0 <= k < text.len() ==> #[trigger] text[k] != '\r'
        },
        SElement::PageBreak => true,
    }
}

proof fn lemma_scan_all_in(s: Seq<char>, i: int, cls: CharClass)
    requires
        0 <= i <= s.len(),
    ensures
        all_in(s.subrange(i, scan(s, i, cls)), cls),
{
    lemma_scan_facts(s, i, cls);
    let t = s.subrange(i, scan(s, i, cls));
    assert forall|k: int| 0 <= k < t.len() implies in_class(cls, #[trigger] t[k]) by {
        assert(t[k] == s[i + k]);
    }
}

proof fn lemma_join_all_in(parts: Seq<Seq<char>>, sep: Seq<char>, cls: CharClass)
    requires
        forall|k: int| 0 <= k < parts.len() ==> all_in(#[trigger] parts[k], cls),
        all_in(sep, cls),
    ensures
        all_in(join(parts, sep), cls),
    decreases parts.len(),
{
    if parts.len() > 1 {
        let d = parts.drop_last();
        assert forall|k: int| 0 <= k < d.len() implies all_in(#[trigger] d[k], cls) by {
            assert(d[k] == parts[k]);
        }
        lemma_join_all_in(d, sep, cls);
        let j = join(parts, sep);
        let a = join(d, sep);
        let l = parts.last();
        assert(all_in(l, cls));
        assert forall|k: int| 0 <= k < j.len() implies in_class(cls, #[trigger] j[k]) by {
            if k < a.len() {
                assert(j[k] == a[k]);
            } else if k < a.len() + sep.len() {
                assert(j[k] == sep[k - a.len()]);
            } else {
                assert(j[k] == l[k - a.len() - sep.len()]);
            }
        }
    } else if parts.len() == 1 {
        assert(all_in(parts[0], cls));
    }
}

proof fn lemma_text_lines_all_in(s: Seq<char>, i: int)
    requires
        0 <= i <= s.len(),
    ensures
        forall|k: int|
            0 <= k < range_texts(s, text_lines(s, i).1).len() ==> all_in(
                #[trigger] range_texts(s, text_lines(s, i).1)[k],
                CharClass::LineChar,
            ),
        i <= text_lines(s, i).0 <= s.len(),
    decreases s.len() - i,
{
    match text_line(s, i) {
        Some((n, j)) => if i < n <= s.len() {
            lemma_text_lines_all_in(s, n);
            lemma_scan_all_in(s, i, CharClass::LineChar);
            lemma_scan_facts(s, i, CharClass::LineChar);
            let rest = text_lines(s, n);
            let rs = text_lines(s, i).1;
            assert(rs == seq![(i, j)] + rest.1);
            assert forall|k: int| 0 <= k < range_texts(s, rs).len() implies all_in(
                #[trigger] range_texts(s, rs)[k],
                CharClass::LineChar,
            ) by {
                if k > 0 {
                    assert(range_texts(s, rs)[k] == range_texts(s, rest.1)[k - 1]);
                }
            }
        },
        None => {},
    }
}

proof fn lemma_extensions_well_formed(s: Seq<char>, i: int)
    requires
        0 <= i <= s.len(),
    ensures
        forall|k: int|
            0 <= k < range_texts(s, character_extensions(s, i).1).len() ==> #[trigger] range_texts(
                s,
                character_extensions(s, i).1,
            )[k].len() > 0 && all_in(
                range_texts(s, character_extensions(s, i).1)[k],
                CharClass::NotCloseParen,
            ),
        i <= character_extensions(s, i).0 <= s.len(),
    decreases s.len() - i,
{
    match character_extension(s, i) {
        Some((n, r)) => if i < n <= s.len() {
            lemma_extensions_well_formed(s, n);
            lemma_scan_all_in(s, i + 1, CharClass::NotCloseParen);
            let rest = character_extensions(s, n);
            let rs = character_extensions(s, i).1;
            assert(rs == seq![r] + rest.1);
            assert forall|k: int| 0 <= k < range_texts(s, rs).len() implies #[trigger] range_texts(
                s,
                rs,
            )[k].len() > 0 && all_in(range_texts(s, rs)[k], CharClass::NotCloseParen) by {
                if k > 0 {
                    assert(range_texts(s, rs)[k] == range_texts(s, rest.1)[k - 1]);
                }
            }
        },
        None => {},
    }
}

proof fn lemma_trim_all_in(t: Seq<char>, cls: CharClass)
    requires
        all_in(t, cls),
    ensures
        all_in(trim(t), cls),
{
    let a = scan(t, 0, CharClass::Whitespace);
    lemma_scan_facts(t, 0, CharClass::Whitespace);
    if a < t.len() {
        lemma_scan_back_facts(t, t.len() as int, CharClass::Whitespace);
        let b = scan_back(t, t.len() as int, CharClass::Whitespace);
        if b <= a {
            assert(in_class(CharClass::Whitespace, t[a]));
        }
        let r = t.subrange(a, b);
        assert forall|k: int| 0 <= k < r.len() implies in_class(cls, #[trigger] r[k]) by {
            assert(r[k] == t[a + k]);
        }
    }
}

proof fn lemma_element_well_formed(s: Seq<char>, i: int)
    requires
        0 <= i <= s.len(),
    ensures
        element(s, i) matches Some((n, e)) ==> well_formed_element(e),
{
    if scene_heading(s, i) is Some {
        let p = scan(s, i + 4, CharClass::Multispace);
        lemma_scan_facts(s, i + 4, CharClass::Multispace);
        lemma_scan_all_in(s, p, CharClass::LineChar);
        assert(s.subrange(i, i + 3) =~= seq!['I', 'N', 'T'] || s.subrange(i, i + 3) =~= seq!['E', 'X', 'T']);
    } else if dialogue(s, i) is Some {
        let j = scan(s, i, CharClass::NameChar);
        lemma_scan_all_in(s, i, CharClass::NameChar);
        lemma_scan_facts(s, j, CharClass::SpaceTab);
        let k = scan(s, j, CharClass::SpaceTab);
        lemma_extensions_well_formed(s, k);
        let e = line_ending(s, character_extensions(s, k).0).unwrap();
        lemma_text_lines_all_in(s, e);
        let parts = range_texts(s, text_lines(s, e).1);
        lemma_join_all_in(parts, seq![' '], CharClass::LineChar);
        assert(s.subrange(i, j)[0] == s[i]);
    } else if page_break(s, i) is Some {
    } else if centered_action(s, i) is Some {
        let j = scan(s, i + 1, CharClass::NotCenterEnd);
        lemma_scan_all_in(s, i + 1, CharClass::NotCenterEnd);
        lemma_trim_all_in(s.subrange(i + 1, j), CharClass::NotCenterEnd);
    } else if action(s, i) is Some {
        lemma_text_lines_all_in(s, i);
        let parts = range_texts(s, text_lines(s, i).1);
        lemma_join_no_cr(parts);
    }
}

proof fn lemma_join_no_cr(parts: Seq<Seq<char>>)
    requires
        forall|k: int| 0 <= k < parts.len() ==> all_in(#[trigger] parts[k], CharClass::NotCenterEnd)
            || all_in(parts[k], CharClass::LineChar),
    ensures
        forall|k: int| 0 <= k < join(parts, seq!['\n']).len() ==> #[trigger] join(parts, seq!['\n'])[k] != '\r',
    decreases parts.len(),
{
    if parts.len() > 1 {
        let d = parts.drop_last();
        assert forall|k: int| 0 <= k < d.len() implies all_in(#[trigger] d[k], CharClass::NotCenterEnd)
            || all_in(d[k], CharClass::LineChar) by {
            assert(d[k] == parts[k]);
        }
        lemma_join_no_cr(d);
        let j = join(parts, seq!['\n']);
        let a = join(d, seq!['\n']);
        let l = parts.last();
        assert(all_in(l, CharClass::NotCenterEnd) || all_in(l, CharClass::LineChar));
        assert forall|k: int| 0 <= k < j.len() implies #[trigger] j[k] != '\r' by {
            if k < a.len() {
                assert(j[k] == a[k]);
            } else if k < a.len() + 1 {
                assert(j[k] == '\n');
            } else {
                assert(j[k] == l[k - a.len() - 1]);
                assert(in_class(CharClass::NotCenterEnd, l[k - a.len() - 1]) || in_class(CharClass::LineChar, l[k - a.len() - 1]));
            }
        }
    } else if parts.len() == 1 {
        let l = parts[0];
        assert(all_in(l, CharClass::NotCenterEnd) || all_in(l, CharClass::LineChar));
        assert forall|k: int| 0 <= k < l.len() implies #[trigger] l[k] != '\r' by {
            assert(in_class(CharClass::NotCenterEnd, l[k]) || in_class(CharClass::LineChar, l[k]));
        }
    }
}

/// Every element read from Fountain text is well formed (see
/// `well_formed_element`).
pub proof fn lemma_elements_well_formed(s: Seq<char>, i: int)
    requires
        0 <= i <= s.len(),
    ensures
        forall|k: int|
            0 <= k < elements(s, i).1.len() ==> well_formed_element(#[trigger] elements(s, i).1[k]),
    decreases s.len() - i,
{
    lemma_element_well_formed(s, i);
    match element(s, i) {
        Some((n, el)) => if i < n <= s.len() {
            lemma_elements_well_formed(s, n);
            let es = elements(s, i).1;
            assert(es == seq![el] + elements(s, n).1);
            assert forall|k: int| 0 <= k < es.len() implies well_formed_element(#[trigger] es[k]) by {
                if k > 0 {
                    assert(es[k] == elements(s, n).1[k - 1]);
                }
            }
        },
        None => {},
    }
}

/// Every element of a parsed document is well formed.
pub proof fn lemma_document_well_formed(s: Seq<char>)
    ensures
        forall|k: int|
            0 <= k < fountain(s).1.elements.len() ==> well_formed_element(
                #[trigger] fountain(s).1.elements[k],
            ),
{
    let start = match title_page(s, 0) {
        Some((e, _)) => e,
        None => 0,
    };
    if title_page(s, 0) is Some {
        lemma_title_fields_end(s, 0);
        lemma_scan_facts(s, title_fields(s, 0).0, CharClass::Newline);
    }
    lemma_elements_well_formed(s, start);
}

/// The title page of a document holds each key once, and each key reads
/// the value last written for it in the text.
pub proof fn lemma_title_page_fields(s: Seq<char>, key: Seq<char>)
    ensures
        match fountain(s).1.title_page {
            Some(fs) => distinct_keys(fs) && (title_page(s, 0) matches Some((_, raw))
                && field_lookup(fs, key) == field_lookup(raw, key)),
            None => title_page(s, 0) is None,
        },
{
    if let Some((_, raw)) = title_page(s, 0) {
        lemma_dedup_fields(raw, key);
    }
}

proof fn lemma_title_fields_end(s: Seq<char>, i: int)
    requires
        0 <= i <= s.len(),
    ensures
        i <= title_fields(s, i).0 <= s.len(),
    decreases s.len() - i,
{
    match title_field(s, i) {
        Some((n, f)) => if i < n <= s.len() {
            lemma_title_fields_end(s, n);
        },
        None => {},
    }
}

} // verus!

verus! {

/// Reading elements goes as far as it can: no element can be read where it
/// stops, and it stops inside the input.
pub proof fn lemma_elements_maximal(s: Seq<char>, i: int)
    requires
        0 <= i <= s.len(),
    ensures
        element(s, elements(s, i).0) is None,
        i <= elements(s, i).0 <= s.len(),
    decreases s.len() - i,
{
    match element(s, i) {
        Some((n, el)) => {
            lemma_element_consumes(s, i);
            lemma_elements_maximal(s, n);
        },
        None => {},
    }
}

/// An element, where one can be read, is at least one character long.
pub proof fn lemma_element_consumes(s: Seq<char>, i: int)
    requires
        0 <= i <= s.len(),
    ensures
        element(s, i) matches Some((n, e)) ==> i < n <= s.len(),
{
    lemma_scan_facts(s, i, CharClass::LineChar);
    lemma_scan_facts(s, i, CharClass::NameChar);
    lemma_scan_facts(s, i, CharClass::Equals);
    if i + 1 <= s.len() {
        lemma_scan_facts(s, i + 1, CharClass::NotCenterEnd);
    }
    if i + 4 <= s.len() {
        lemma_scan_facts(s, i + 4, CharClass::Multispace);
        let p = scan(s, i + 4, CharClass::Multispace);
        lemma_scan_facts(s, p, CharClass::LineChar);
    }
    let j = scan(s, i, CharClass::NameChar);
    lemma_scan_facts(s, j, CharClass::SpaceTab);
    let k = scan(s, j, CharClass::SpaceTab);
    lemma_extensions_well_formed(s, k);
    let m = character_extensions(s, k).0;
    if let Some(e) = line_ending(s, m) {
        lemma_text_lines_all_in(s, e);
    }
    lemma_text_lines_all_in(s, i);
    let r = match scene_heading(s, i) {
        Some(r) => Some(r),
        None => match dialogue(s, i) {
            Some(r) => Some(r),
            None => match page_break(s, i) {
                Some(r) => Some(r),
                None => match centered_action(s, i) {
                    Some(r) => Some(r),
                    None => action(s, i),
                },
            },
        },
    };
    if let Some(e) = line_ending(s, m) {
        lemma_text_lines_progress(s, e);
    }
    lemma_text_lines_progress(s, i);
    if let Some((e, el)) = r {
        assert(i < e <= s.len());
        lemma_scan_facts(s, e, CharClass::Newline);
    }
}

proof fn lemma_text_lines_progress(s: Seq<char>, i: int)
    requires
        0 <= i <= s.len(),
    ensures
        text_line(s, i) is Some ==> i < text_lines(s, i).0 <= s.len(),
{
    lemma_scan_facts(s, i, CharClass::LineChar);
    if let Some((n, j)) = text_line(s, i) {
        assert(i < n <= s.len());
        lemma_text_lines_all_in(s, n);
    }
}

} // verus!

verus! {

/// Where no title page can be read, a document is just its elements: the
/// same elements, ending at the same place, as reading elements from the
/// start.
pub proof fn lemma_fountain_without_title_page(s: Seq<char>)
    requires
        title_page(s, 0) is None,
    ensures
        fountain(s).1.title_page is None,
        fountain(s).1.elements == elements(s, 0).1,
        fountain(s).0 == elements(s, 0).0,
{
}

} // verus!
