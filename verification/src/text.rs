//! Character-level building blocks shared by the parsers and the renderers:
//! character classes and scanning, Unicode whitespace, trimming, joining and
//! decimal formatting, each with the spec function that states it.
use vstd::prelude::*;

verus! {

/// Unicode `White_Space`, the property that `char::is_whitespace`, `str::trim`
/// and `str::split_whitespace` go by.
pub open spec fn is_ws(c: char) -> bool {
    let u = c as u32;
    ||| 0x9 <= u <= 0xd
    ||| u == 0x20
    ||| u == 0x85
    ||| u == 0xa0
    ||| u == 0x1680
    ||| 0x2000 <= u <= 0x200a
    ||| u == 0x2028
    ||| u == 0x2029
    ||| u == 0x202f
    ||| u == 0x205f
    ||| u == 0x3000
}

/// Whether `c` is Unicode whitespace.
pub fn is_whitespace(c: char) -> (r: bool)
    ensures
        r == is_ws(c),
{
    let u = c as u32;
    (0x9 <= u && u <= 0xd) || u == 0x20 || u == 0x85 || u == 0xa0 || u == 0x1680 || (0x2000 <= u
        && u <= 0x200a) || u == 0x2028 || u == 0x2029 || u == 0x202f || u == 0x205f || u == 0x3000
}

/// The classes of characters that the grammar scans over.
#[derive(Clone, Copy, PartialEq, Eq, Debug)]
pub enum CharClass {
    /// Anything but `'\r'` and `'\n'`.
    LineChar,
    /// Only `'\n'`.
    Newline,
    /// `' '` and `'\t'`.
    SpaceTab,
    /// `' '`, `'\t'`, `'\r'` and `'\n'`.
    Multispace,
    /// ASCII upper-case letters, ASCII digits and `' '`.
    NameChar,
    /// Anything but `')'`.
    NotCloseParen,
    /// Anything but `':'`.
    NotColon,
    /// Anything but `'\r'`, `'\n'` and `'<'`.
    NotCenterEnd,
    /// Only `'='`.
    Equals,
    /// Unicode whitespace.
    Whitespace,
}

pub open spec fn is_ascii_upper(c: char) -> bool {
    'A' <= c && c <= 'Z'
}

pub open spec fn is_ascii_digit(c: char) -> bool {
    '0' <= c && c <= '9'
}

pub open spec fn is_ascii_alnum(c: char) -> bool {
    is_ascii_upper(c) || ('a' <= c && c <= 'z') || is_ascii_digit(c)
}

pub open spec fn in_class(cls: CharClass, c: char) -> bool {
    match cls {
        CharClass::LineChar => c != '\r' && c != '\n',
        CharClass::Newline => c == '\n',
        CharClass::SpaceTab => c == ' ' || c == '\t',
        CharClass::Multispace => c == ' ' || c == '\t' || c == '\r' || c == '\n',
        CharClass::NameChar => is_ascii_upper(c) || c == ' ' || is_ascii_digit(c),
        CharClass::NotCloseParen => c != ')',
        CharClass::NotColon => c != ':',
        CharClass::NotCenterEnd => c != '\r' && c != '\n' && c != '<',
        CharClass::Equals => c == '=',
        CharClass::Whitespace => is_ws(c),
    }
}

pub fn class_contains(cls: CharClass, c: char) -> (r: bool)
    ensures
        r == in_class(cls, c),
{
    match cls {
        CharClass::LineChar => c != '\r' && c != '\n',
        CharClass::Newline => c == '\n',
        CharClass::SpaceTab => c == ' ' || c == '\t',
        CharClass::Multispace => c == ' ' || c == '\t' || c == '\r' || c == '\n',
        CharClass::NameChar => ('A' <= c && c <= 'Z') || c == ' ' || ('0' <= c && c <= '9'),
        CharClass::NotCloseParen => c != ')',
        CharClass::NotColon => c != ':',
        CharClass::NotCenterEnd => c != '\r' && c != '\n' && c != '<',
        CharClass::Equals => c == '=',
        CharClass::Whitespace => is_whitespace(c),
    }
}

/// The end of the longest run of characters of class `cls` that starts at `i`.
pub open spec fn scan(s: Seq<char>, i: int, cls: CharClass) -> int
    decreases s.len() - i,
{
    if i < 0 || i >= s.len() || !in_class(cls, s[i]) {
        i
    } else {
        scan(s, i + 1, cls)
    }
}

/// The start of the longest run of characters of class `cls` that ends at `j`.
pub open spec fn scan_back(s: Seq<char>, j: int, cls: CharClass) -> int
    decreases j,
{
    if j <= 0 || j > s.len() || !in_class(cls, s[j - 1]) {
        j
    } else {
        scan_back(s, j - 1, cls)
    }
}

/// `scan` stops at `j` exactly when every character in between is in the class
/// and the one at `j`, if any, is not.
pub proof fn lemma_scan_is(s: Seq<char>, i: int, j: int, cls: CharClass)
    requires
        0 <= i <= j <= s.len(),
        forall|k: int| i <= k < j ==> in_class(cls, #[trigger] s[k]),
        j == s.len() || !in_class(cls, s[j]),
    ensures
        scan(s, i, cls) == j,
    decreases j - i,
{
    if i < j {
        lemma_scan_is(s, i + 1, j, cls);
    }
}

/// What `scan` returns: the first position at or after `i` out of the class.
pub proof fn lemma_scan_facts(s: Seq<char>, i: int, cls: CharClass)
    requires
        0 <= i <= s.len(),
    ensures
        i <= scan(s, i, cls) <= s.len(),
        forall|k: int| i <= k < scan(s, i, cls) ==> in_class(cls, #[trigger] s[k]),
        scan(s, i, cls) == s.len() || !in_class(cls, s[scan(s, i, cls)]),
    decreases s.len() - i,
{
    if i < s.len() && in_class(cls, s[i]) {
        lemma_scan_facts(s, i + 1, cls);
    }
}

/// `scan_back` stops at `i` exactly when every character in between is in
/// the class and the one before `i`, if any, is not.
pub proof fn lemma_scan_back_is(s: Seq<char>, i: int, j: int, cls: CharClass)
    requires
        0 <= i <= j <= s.len(),
        forall|k: int| i <= k < j ==> in_class(cls, #[trigger] s[k]),
        i == 0 || !in_class(cls, s[i - 1]),
    ensures
        scan_back(s, j, cls) == i,
    decreases j - i,
{
    if i < j {
        lemma_scan_back_is(s, i, j - 1, cls);
    }
}

/// What `scan_back` returns: the last position at or before `j` whose
/// predecessor is out of the class.
pub proof fn lemma_scan_back_facts(s: Seq<char>, j: int, cls: CharClass)
    requires
        0 <= j <= s.len(),
    ensures
        0 <= scan_back(s, j, cls) <= j,
        forall|k: int| scan_back(s, j, cls) <= k < j ==> in_class(cls, #[trigger] s[k]),
        scan_back(s, j, cls) == 0 || !in_class(cls, s[scan_back(s, j, cls) - 1]),
    decreases j,
{
    if j > 0 && in_class(cls, s[j - 1]) {
        lemma_scan_back_facts(s, j - 1, cls);
    }
}

/// The end of the run of characters of class `cls` starting at `i`.
pub fn scan_class(s: &Vec<char>, i: usize, cls: CharClass) -> (j: usize)
    requires
        i <= s.len(),
    ensures
        j == scan(s@, i as int, cls),
        i <= j <= s.len(),
{
    let mut j = i;
    while j < s.len() && class_contains(cls, s[j])
        invariant
            i <= j <= s.len(),
            forall|k: int| i <= k < j ==> in_class(cls, #[trigger] s@[k]),
        decreases s.len() - j,
    {
        j = j + 1;
    }
    proof {
        lemma_scan_is(s@, i as int, j as int, cls);
    }
    j
}

/// The start of the run of characters of class `cls` ending at `j`.
pub fn scan_class_back(s: &Vec<char>, j: usize, cls: CharClass) -> (i: usize)
    requires
        j <= s.len(),
    ensures
        i == scan_back(s@, j as int, cls),
        i <= j,
    decreases j,
{
    if j > 0 && class_contains(cls, s[j - 1]) {
        scan_class_back(s, j - 1, cls)
    } else {
        j
    }
}

/// `str::trim`: `s` without its leading and trailing Unicode whitespace.
pub open spec fn trim(s: Seq<char>) -> Seq<char> {
    let a = scan(s, 0, CharClass::Whitespace);
    if a >= s.len() {
        Seq::empty()
    } else {
        s.subrange(a, scan_back(s, s.len() as int, CharClass::Whitespace))
    }
}

/// The range of `s[lo..hi]` left when leading and trailing whitespace is
/// removed (empty at `hi` when nothing is left).
pub fn trim_range(s: &Vec<char>, lo: usize, hi: usize) -> (r: (usize, usize))
    requires
        lo <= hi <= s.len(),
    ensures
        lo <= r.0 <= r.1 <= hi,
        s@.subrange(r.0 as int, r.1 as int) == trim(s@.subrange(lo as int, hi as int)),
{
    let ghost t = s@.subrange(lo as int, hi as int);
    let mut a = lo;
    while a < hi && is_whitespace(s[a])
        invariant
            lo <= a <= hi <= s.len(),
            forall|k: int| lo <= k < a ==> is_ws(#[trigger] s@[k]),
        decreases hi - a,
    {
        a = a + 1;
    }
    proof {
        assert forall|k: int| 0 <= k < (a - lo) implies in_class(CharClass::Whitespace, #[trigger] t[k]) by {
            assert(is_ws(s@[lo + k]));
        }
        lemma_scan_is(t, 0, (a - lo) as int, CharClass::Whitespace);
    }
    if a == hi {
        assert(Seq::<char>::empty() =~= s@.subrange(hi as int, hi as int));
        return (hi, hi);
    }
    let mut b = hi;
    while b > a + 1 && is_whitespace(s[b - 1])
        invariant
            lo <= a < b <= hi <= s.len(),
            !is_ws(s@[a as int]),
            forall|k: int| b <= k < hi ==> is_ws(#[trigger] s@[k]),
        decreases b,
    {
        b = b - 1;
    }
    proof {
        assert forall|k: int| (b - lo) <= k < t.len() implies in_class(CharClass::Whitespace, #[trigger] t[k]) by {
            assert(is_ws(s@[lo + k]));
        }
        assert(!is_ws(t[b - lo - 1]));
        lemma_scan_back_is(t, (b - lo) as int, t.len() as int, CharClass::Whitespace);
        assert(t.subrange((a - lo) as int, (b - lo) as int) =~= s@.subrange(a as int, b as int));
    }
    (a, b)
}

/// Whether `s` holds nothing but Unicode whitespace (`s.trim() == ""`).
pub open spec fn all_ws(s: Seq<char>) -> bool {
    forall|k: int| 0 <= k < s.len() ==> is_ws(#[trigger] s[k])
}

/// The parts joined with `sep` between each two (`[&str]::join`).
pub open spec fn join(parts: Seq<Seq<char>>, sep: Seq<char>) -> Seq<char>
    decreases parts.len(),
{
    if parts.len() == 0 {
        Seq::empty()
    } else if parts.len() == 1 {
        parts[0]
    } else {
        join(parts.drop_last(), sep) + sep + parts.last()
    }
}

/// The decimal digit for `d < 10`.
pub open spec fn digit_char(d: nat) -> char {
    (48 + d) as char
}

/// The decimal representation of `n`, as `format!("{}", n)` writes it.
pub open spec fn decimal(n: nat) -> Seq<char>
    decreases n,
{
    if n < 10 {
        seq![digit_char(n)]
    } else {
        decimal(n / 10).push(digit_char(n % 10))
    }
}

/// Appends one character to a `String` (`String::push`).
#[verifier::external_body]
pub(crate) fn push_char(s: &mut String, c: char)
    ensures
        final(s)@ == old(s)@.push(c),
{
    s.push(c);
}

/// The characters of a string slice, in order.
pub fn chars_of(s: &str) -> (v: Vec<char>)
    ensures
        v@ == s@,
{
    let mut v: Vec<char> = Vec::new();
    for c in it: s.chars()
        invariant
            v@ == it.seq().take(it.index() as int),
    {
        v.push(c);
    }
    v
}

/// Appends the characters `v[lo..hi]` to `s`.
pub fn push_range(s: &mut String, v: &Vec<char>, lo: usize, hi: usize)
    requires
        lo <= hi <= v.len(),
    ensures
        final(s)@ == old(s)@ + v@.subrange(lo as int, hi as int),
{
    let mut k = lo;
    while k < hi
        invariant
            lo <= k <= hi <= v.len(),
            s@ == old(s)@ + v@.subrange(lo as int, k as int),
        decreases hi - k,
    {
        push_char(s, v[k]);
        k = k + 1;
        assert(s@ =~= old(s)@ + v@.subrange(lo as int, k as int));
    }
}

/// A new string holding the characters `v[lo..hi]`.
pub fn string_of_range(v: &Vec<char>, lo: usize, hi: usize) -> (s: String)
    requires
        lo <= hi <= v.len(),
    ensures
        s@ == v@.subrange(lo as int, hi as int),
{
    let mut s = String::new();
    push_range(&mut s, v, lo, hi);
    assert(s@ =~= v@.subrange(lo as int, hi as int));
    s
}

/// Appends the decimal representation of `n` to `s`.
pub fn push_decimal(s: &mut String, n: usize)
    ensures
        final(s)@ == old(s)@ + decimal(n as nat),
    decreases n,
{
    if n >= 10 {
        push_decimal(s, n / 10);
    }
    let d = (n % 10) as u8;
    push_char(s, (48u8 + d) as char);
    proof {
        if n >= 10 {
            assert(decimal(n as nat) == decimal((n / 10) as nat).push(digit_char((n % 10) as nat)));
        }
        assert(final(s)@ =~= old(s)@ + decimal(n as nat));
    }
}

/// The decimal representation of `n`.
pub fn decimal_string(n: usize) -> (s: String)
    ensures
        s@ == decimal(n as nat),
{
    let mut s = String::new();
    push_decimal(&mut s, n);
    assert(s@ =~= decimal(n as nat));
    s
}

} // verus!
