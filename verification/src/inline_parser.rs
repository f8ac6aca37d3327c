//! Markdown-like emphasis inside a line of Fountain text:
//! `*italics*`, `**bold**`, `***bold italics***` and `_underline_`.
use vstd::prelude::*;
use crate::text::{chars_of, string_of_range};
use crate::parser::ParseError;

verus! {

/// A piece of inline text with its emphasis.
#[derive(Debug, PartialEq, Eq)]
pub enum Expression {
    Text(String),
    Italic(Vec<Expression>),
    Bold(Vec<Expression>),
    BoldItalic(Vec<Expression>),
    Underline(Vec<Expression>),
}

/// The mathematical value of an [`Expression`].
pub enum SExpr {
    Text(Seq<char>),
    Italic(Seq<SExpr>),
    Bold(Seq<SExpr>),
    BoldItalic(Seq<SExpr>),
    Underline(Seq<SExpr>),
}

pub open spec fn expr_view(e: Expression) -> SExpr
    decreases e,
{
    match e {
        Expression::Text(t) => SExpr::Text(t@),
        Expression::Italic(v) => SExpr::Italic(exprs_view(v@)),
        Expression::Bold(v) => SExpr::Bold(exprs_view(v@)),
        Expression::BoldItalic(v) => SExpr::BoldItalic(exprs_view(v@)),
        Expression::Underline(v) => SExpr::Underline(exprs_view(v@)),
    }
}

pub open spec fn exprs_view(v: Seq<Expression>) -> Seq<SExpr>
    decreases v,
{
    if v.len() == 0 {
        Seq::empty()
    } else {
        seq![expr_view(v[0])] + exprs_view(v.subrange(1, v.len() as int))
    }
}

} // verus!

verus! {

/// The four kinds of emphasis, in the order in which they are tried.
#[derive(Clone, Copy, PartialEq, Eq, Debug)]
pub enum Emphasis {
    BoldItalic,
    Bold,
    Italic,
    Underline,
}

/// The length of the fence around emphasised text (`***`, `**`, `*`, `_`).
pub open spec fn fence_len(st: Emphasis) -> int {
    match st {
        Emphasis::BoldItalic => 3,
        Emphasis::Bold => 2,
        Emphasis::Italic => 1,
        Emphasis::Underline => 1,
    }
}

pub open spec fn fence_char(st: Emphasis) -> char {
    match st {
        Emphasis::Underline => '_',
        _ => '*',
    }
}

/// The fence of `st` stands at `i`, inside the window that ends at `hi`.
pub open spec fn fence_at(s: Seq<char>, i: int, hi: int, st: Emphasis) -> bool {
    &&& 0 <= i
    &&& i + fence_len(st) <= hi <= s.len()
    &&& forall|j: int| i <= j < i + fence_len(st) ==> s[j] == fence_char(st)
}

/// The first position at or after `i` where the fence of `st` stands,
/// within the window that ends at `hi` (`take_until`).
pub open spec fn find_fence(s: Seq<char>, i: int, hi: int, st: Emphasis) -> Option<int>
    decreases hi - i,
{
    if i < 0 || i + fence_len(st) > hi {
        None
    } else if fence_at(s, i, hi, st) {
        Some(i)
    } else {
        find_fence(s, i + 1, hi, st)
    }
}

pub open spec fn wrap(st: Emphasis, inner: Seq<SExpr>) -> SExpr {
    match st {
        Emphasis::BoldItalic => SExpr::BoldItalic(inner),
        Emphasis::Bold => SExpr::Bold(inner),
        Emphasis::Italic => SExpr::Italic(inner),
        Emphasis::Underline => SExpr::Underline(inner),
    }
}

/// The expressions that `s[lo..hi]` reads as: plain text up to the first
/// position where emphasis of some kind can be read, that emphasis (its inside
/// read the same way), then the rest read the same way.
pub open spec fn inline_spec(s: Seq<char>, lo: int, hi: int) -> Seq<SExpr>
    decreases hi - lo, 2int, 0int,
{
    if lo < 0 || hi > s.len() || lo >= hi {
        Seq::empty()
    } else {
        match first_directive(s, lo, lo, hi) {
            Some((k, end, e)) => (if k > lo {
                seq![SExpr::Text(s.subrange(lo, k))]
            } else {
                Seq::empty()
            }) + seq![e] + (if lo < end && end <= hi {
                inline_spec(s, end, hi)
            } else {
                Seq::empty()
            }),
            None => seq![SExpr::Text(s.subrange(lo, hi))],
        }
    }
}

/// The first position `k` at or after `from` at which emphasis can be read
/// within `s[lo..hi]`, with the end of that emphasis and its value.
pub open spec fn first_directive(s: Seq<char>, lo: int, from: int, hi: int) -> Option<(int, int, SExpr)>
    decreases hi - lo, 1int, hi - from,
{
    if from < lo || from >= hi {
        None
    } else {
        match directive(s, lo, from, hi) {
            Some((end, e)) => Some((from, end, e)),
            None => first_directive(s, lo, from + 1, hi),
        }
    }
}

/// Emphasis read at `k` (bold-italic, else bold, else italic, else underline).
pub open spec fn directive(s: Seq<char>, lo: int, k: int, hi: int) -> Option<(int, SExpr)>
    decreases hi - lo, 0int, 1int,
{
    match styled(s, lo, k, hi, Emphasis::BoldItalic) {
        Some(r) => Some(r),
        None => match styled(s, lo, k, hi, Emphasis::Bold) {
            Some(r) => Some(r),
            None => match styled(s, lo, k, hi, Emphasis::Italic) {
                Some(r) => Some(r),
                None => styled(s, lo, k, hi, Emphasis::Underline),
            },
        },
    }
}

/// Emphasis of kind `st` read at `k`: its fence, the text up to the next
/// fence of the same kind, that fence.
pub open spec fn styled(s: Seq<char>, lo: int, k: int, hi: int, st: Emphasis) -> Option<(int, SExpr)>
    decreases hi - lo, 0int, 0int,
{
    if fence_at(s, k, hi, st) {
        let a = k + fence_len(st);
        match find_fence(s, a, hi, st) {
            Some(m) => if lo <= k && a <= m && m + fence_len(st) <= hi {
                Some((m + fence_len(st), wrap(st, inline_spec(s, a, m))))
            } else {
                None
            },
            None => None,
        }
    } else {
        None
    }
}

pub proof fn lemma_exprs_view_push(v: Seq<Expression>, x: Expression)
    ensures
        exprs_view(v.push(x)) == exprs_view(v).push(expr_view(x)),
    decreases v.len(),
{
    if v.len() == 0 {
        let e = Seq::<Expression>::empty();
        assert(v.push(x).subrange(1, 1) =~= e);
        assert(exprs_view(e) == Seq::<SExpr>::empty());
        assert(v.push(x)[0] == x);
        assert(exprs_view(v.push(x)) =~= seq![expr_view(x)]);
    } else {
        let w = v.subrange(1, v.len() as int);
        lemma_exprs_view_push(w, x);
        assert(v.push(x).subrange(1, v.len() as int + 1) =~= w.push(x));
        assert(exprs_view(v.push(x)) =~= exprs_view(v).push(expr_view(x)));
    }
}

fn fence_len_exec(st: Emphasis) -> (n: usize)
    ensures
        n == fence_len(st),
{
    match st {
        Emphasis::BoldItalic => 3,
        Emphasis::Bold => 2,
        Emphasis::Italic => 1,
        Emphasis::Underline => 1,
    }
}

fn fence_char_exec(st: Emphasis) -> (c: char)
    ensures
        c == fence_char(st),
{
    match st {
        Emphasis::Underline => '_',
        _ => '*',
    }
}

fn fence_at_exec(s: &Vec<char>, i: usize, hi: usize, st: Emphasis) -> (r: bool)
    requires
        hi <= s.len(),
    ensures
        r == fence_at(s@, i as int, hi as int, st),
{
    let n = fence_len_exec(st);
    let c = fence_char_exec(st);
    if i > hi || hi - i < n {
        return false;
    }
    let mut k: usize = 0;
    while k < n
        invariant
            k <= n,
            n == fence_len(st),
            c == fence_char(st),
            i + n <= hi <= s.len(),
            forall|j: int| i <= j < i + k ==> s@[j] == c,
        decreases n - k,
    {
        if s[i + k] != c {
            return false;
        }
        k = k + 1;
    }
    true
}

fn find_fence_exec(s: &Vec<char>, i: usize, hi: usize, st: Emphasis) -> (r: Option<usize>)
    requires
        hi <= s.len(),
    ensures
        match r {
            Some(m) => find_fence(s@, i as int, hi as int, st) == Some(m as int),
            None => find_fence(s@, i as int, hi as int, st) is None,
        },
{
    let n = fence_len_exec(st);
    let mut j = i;
    while j <= hi && hi - j >= n
        invariant
            n == fence_len(st),
            hi <= s.len(),
            i <= j,
            find_fence(s@, i as int, hi as int, st) == find_fence(s@, j as int, hi as int, st),
        decreases hi + 1 - j,
    {
        if fence_at_exec(s, j, hi, st) {
            return Some(j);
        }
        j = j + 1;
    }
    None
}

fn wrap_exec(st: Emphasis, inner: Vec<Expression>) -> (e: Expression)
    ensures
        expr_view(e) == wrap(st, exprs_view(inner@)),
{
    match st {
        Emphasis::BoldItalic => Expression::BoldItalic(inner),
        Emphasis::Bold => Expression::Bold(inner),
        Emphasis::Italic => Expression::Italic(inner),
        Emphasis::Underline => Expression::Underline(inner),
    }
}

fn styled_exec(s: &Vec<char>, lo: usize, k: usize, hi: usize, st: Emphasis) -> (r: Option<(usize, Expression)>)
    requires
        hi <= s.len(),
    ensures
        match r {
            Some((end, e)) => styled(s@, lo as int, k as int, hi as int, st) == Some((end as int, expr_view(e))),
            None => styled(s@, lo as int, k as int, hi as int, st) is None,
        },
    decreases hi - lo, 0int, 0int,
{
    if !fence_at_exec(s, k, hi, st) {
        return None;
    }
    let n = fence_len_exec(st);
    let a = k + n;
    let found = find_fence_exec(s, a, hi, st);
    proof {
        lemma_find_fence_range(s@, a as int, hi as int, st);
    }
    match found {
        Some(m) => {
            if lo <= k && a <= m && m + n <= hi {
                let inner = inline_exec(s, a, m);
                Some((m + n, wrap_exec(st, inner)))
            } else {
                None
            }
        },
        None => None,
    }
}

fn directive_exec(s: &Vec<char>, lo: usize, k: usize, hi: usize) -> (r: Option<(usize, Expression)>)
    requires
        hi <= s.len(),
    ensures
        match r {
            Some((end, e)) => directive(s@, lo as int, k as int, hi as int) == Some((end as int, expr_view(e))),
            None => directive(s@, lo as int, k as int, hi as int) is None,
        },
    decreases hi - lo, 0int, 1int,
{
    match styled_exec(s, lo, k, hi, Emphasis::BoldItalic) {
        Some(r) => return Some(r),
        None => {},
    }
    match styled_exec(s, lo, k, hi, Emphasis::Bold) {
        Some(r) => return Some(r),
        None => {},
    }
    match styled_exec(s, lo, k, hi, Emphasis::Italic) {
        Some(r) => return Some(r),
        None => {},
    }
    styled_exec(s, lo, k, hi, Emphasis::Underline)
}

fn first_directive_exec(s: &Vec<char>, lo: usize, hi: usize) -> (r: Option<(usize, usize, Expression)>)
    requires
        hi <= s.len(),
    ensures
        match r {
            Some((k, end, e)) => first_directive(s@, lo as int, lo as int, hi as int) == Some(
                (k as int, end as int, expr_view(e)),
            ),
            None => first_directive(s@, lo as int, lo as int, hi as int) is None,
        },
    decreases hi - lo, 1int, 0int,
{
    let mut k = lo;
    while k < hi
        invariant
            lo <= k,
            hi <= s.len(),
            first_directive(s@, lo as int, lo as int, hi as int) == first_directive(
                s@,
                lo as int,
                k as int,
                hi as int,
            ),
        decreases hi - k,
    {
        match directive_exec(s, lo, k, hi) {
            Some((end, e)) => {
                return Some((k, end, e));
            },
            None => {},
        }
        k = k + 1;
    }
    None
}

fn inline_exec(s: &Vec<char>, lo: usize, hi: usize) -> (r: Vec<Expression>)
    requires
        lo <= hi <= s.len(),
    ensures
        exprs_view(r@) == inline_spec(s@, lo as int, hi as int),
    decreases hi - lo, 2int, 0int,
{
    let mut out: Vec<Expression> = Vec::new();
    let mut cur = lo;
    assert(exprs_view(out@) =~= Seq::<SExpr>::empty());
    while cur < hi
        invariant
            lo <= cur <= hi <= s.len(),
            exprs_view(out@) + inline_spec(s@, cur as int, hi as int) == inline_spec(
                s@,
                lo as int,
                hi as int,
            ),
        decreases hi - cur,
    {
        let ghost before = exprs_view(out@);
        match first_directive_exec(s, cur, hi) {
            Some((k, end, e)) => {
                proof {
                    reveal_with_fuel(first_directive, 1);
                }
                assert(cur <= k < hi) by {
                    lemma_first_directive_range(s@, cur as int, cur as int, hi as int);
                }
                assert(k < end <= hi) by {
                    lemma_first_directive_range(s@, cur as int, cur as int, hi as int);
                }
                if k > cur {
                    let t = Expression::Text(string_of_range(s, cur, k));
                    proof {
                        lemma_exprs_view_push(out@, t);
                    }
                    out.push(t);
                }
                proof {
                    lemma_exprs_view_push(out@, e);
                }
                out.push(e);
                cur = end;
            },
            None => {
                let t = Expression::Text(string_of_range(s, cur, hi));
                proof {
                    lemma_exprs_view_push(out@, t);
                }
                out.push(t);
                cur = hi;
            },
        }
    }
    out
}

/// What `first_directive` finds lies inside the window and ends after it starts.
pub proof fn lemma_first_directive_range(s: Seq<char>, lo: int, from: int, hi: int)
    ensures
        first_directive(s, lo, from, hi) matches Some((k, end, e)) ==> lo <= k < hi && k < end
            <= hi,
    decreases hi - from,
{
    if from < lo || from >= hi {
    } else {
        lemma_directive_range(s, lo, from, hi);
        match directive(s, lo, from, hi) {
            Some((end, e)) => {},
            None => lemma_first_directive_range(s, lo, from + 1, hi),
        }
    }
}

pub proof fn lemma_find_fence_range(s: Seq<char>, i: int, hi: int, st: Emphasis)
    ensures
        find_fence(s, i, hi, st) matches Some(m) ==> i <= m && m + fence_len(st) <= hi,
    decreases hi - i,
{
    if i < 0 || i + fence_len(st) > hi {
    } else if fence_at(s, i, hi, st) {
    } else {
        lemma_find_fence_range(s, i + 1, hi, st);
    }
}

/// Emphasis read at `k` ends after `k` and inside the window.
pub proof fn lemma_directive_range(s: Seq<char>, lo: int, k: int, hi: int)
    ensures
        directive(s, lo, k, hi) matches Some((end, e)) ==> k < end <= hi,
{
    lemma_find_fence_range(s, k + 3, hi, Emphasis::BoldItalic);
    lemma_find_fence_range(s, k + 2, hi, Emphasis::Bold);
    lemma_find_fence_range(s, k + 1, hi, Emphasis::Italic);
    lemma_find_fence_range(s, k + 1, hi, Emphasis::Underline);
}

} // verus!

verus! {

/// The HTML for an expression: its text, inside `<i>`, `<b>` or `<u>` tags by
/// its emphasis (bold-italic is written as bold).
pub open spec fn expr_html(e: SExpr) -> Seq<char>
    decreases e,
{
    match e {
        SExpr::Text(t) => t,
        SExpr::Italic(v) => "<i>"@ + exprs_html(v) + "</i>"@,
        SExpr::Bold(v) => "<b>"@ + exprs_html(v) + "</b>"@,
        SExpr::BoldItalic(v) => "<b>"@ + exprs_html(v) + "</b>"@,
        SExpr::Underline(v) => "<u>"@ + exprs_html(v) + "</u>"@,
    }
}

/// The HTML of each expression, one after another.
pub open spec fn exprs_html(v: Seq<SExpr>) -> Seq<char>
    decreases v,
{
    if v.len() == 0 {
        Seq::empty()
    } else {
        exprs_html(v.subrange(0, v.len() - 1)) + expr_html(v[v.len() - 1])
    }
}

/// The emphasis that `input` holds, read as `inline_spec` says; reading
/// never fails and consumes the whole input.
pub fn parse_inline(input: &str) -> (r: Result<(String, Vec<Expression>), ParseError>)
    ensures
        r matches Ok((rest, exprs)) && rest@ == Seq::<char>::empty() && exprs_view(exprs@)
            == inline_spec(input@, 0, input@.len() as int),
{
    let s = chars_of(input);
    let exprs = inline_exec(&s, 0, s.len());
    Ok((String::new(), exprs))
}

/// The HTML for a sequence of expressions. Taking its tags out gives the
/// text leaves (see `lemma_exprs_html_strips_to_leaves`).
pub fn exprs_as_html(v: &Vec<Expression>) -> (r: String)
    ensures
        r@ == exprs_html(exprs_view(v@)),
    decreases v,
{
    let mut out = String::new();
    let mut i: usize = 0;
    assert(v@.take(0) =~= Seq::<Expression>::empty());
    assert(exprs_view(v@.take(0)) == Seq::<SExpr>::empty());
    while i < v.len()
        invariant
            i <= v.len(),
            out@ == exprs_html(exprs_view(v@.take(i as int))),
        decreases v.len() - i,
    {
        proof {
            assert(decreases_to!(v => v@));
            assert(decreases_to!(v@ => v@[i as int]));
        }
        let h = v[i].as_html();
        out.append(h.as_str());
        proof {
            assert(v@.take(i + 1) =~= v@.take(i as int).push(v@[i as int]));
            lemma_exprs_view_push(v@.take(i as int), v@[i as int]);
            let xs = exprs_view(v@.take(i as int)).push(expr_view(v@[i as int]));
            assert(xs.subrange(0, xs.len() - 1) =~= exprs_view(v@.take(i as int)));
        }
        i = i + 1;
    }
    assert(v@.take(v.len() as int) =~= v@);
    out
}

impl Expression {
    /// The HTML for this expression (see `expr_html`). Taking its tags out
    /// gives its text leaves (see `lemma_html_strips_to_leaves`).
    pub fn as_html(&self) -> (r: String)
        ensures
            r@ == expr_html(expr_view(*self)),
        decreases self,
    {
        match self {
            Expression::Text(t) => t.clone(),
            Expression::Italic(v) => {
                let mut s = String::from_str("<i>");
                let inner = exprs_as_html(v);
                s.append(inner.as_str());
                s.append("</i>");
                s
            },
            Expression::Bold(v) => {
                let mut s = String::from_str("<b>");
                let inner = exprs_as_html(v);
                s.append(inner.as_str());
                s.append("</b>");
                s
            },
            Expression::BoldItalic(v) => {
                let mut s = String::from_str("<b>");
                let inner = exprs_as_html(v);
                s.append(inner.as_str());
                s.append("</b>");
                s
            },
            Expression::Underline(v) => {
                let mut s = String::from_str("<u>");
                let inner = exprs_as_html(v);
                s.append(inner.as_str());
                s.append("</u>");
                s
            },
        }
    }
}

} // verus!

verus! {

/// Text without `*` or `_` between `lo` and `hi`.
pub open spec fn no_markers(s: Seq<char>, lo: int, hi: int) -> bool {
    forall|k: int| lo <= k < hi ==> #[trigger] s[k] != '*' && s[k] != '_'
}

proof fn lemma_no_directive(s: Seq<char>, lo: int, from: int, hi: int)
    requires
        0 <= lo,
        hi <= s.len(),
        no_markers(s, lo, hi),
    ensures
        first_directive(s, lo, from, hi) is None,
    decreases hi - from,
{
    if from >= lo && from < hi {
        assert(s[from] != '*' && s[from] != '_');
        assert(!fence_at(s, from, hi, Emphasis::BoldItalic));
        assert(!fence_at(s, from, hi, Emphasis::Bold));
        assert(!fence_at(s, from, hi, Emphasis::Italic));
        assert(!fence_at(s, from, hi, Emphasis::Underline));
        assert(styled(s, lo, from, hi, Emphasis::BoldItalic) is None);
        assert(styled(s, lo, from, hi, Emphasis::Bold) is None);
        assert(styled(s, lo, from, hi, Emphasis::Italic) is None);
        assert(styled(s, lo, from, hi, Emphasis::Underline) is None);
        assert(directive(s, lo, from, hi) is None);
        lemma_no_directive(s, lo, from + 1, hi);
    }
}

/// Text without emphasis markers reads as one plain piece of text, and its
/// HTML is the text itself.
pub proof fn lemma_plain_text(t: Seq<char>)
    requires
        t.len() > 0,
        no_markers(t, 0, t.len() as int),
    ensures
        inline_spec(t, 0, t.len() as int) == seq![SExpr::Text(t)],
        exprs_html(inline_spec(t, 0, t.len() as int)) == t,
{
    lemma_no_directive(t, 0, 0, t.len() as int);
    assert(t.subrange(0, t.len() as int) =~= t);
    let v = seq![SExpr::Text(t)];
    assert(v.subrange(0, 0) =~= Seq::<SExpr>::empty());
    assert(exprs_html(Seq::<SExpr>::empty()) == Seq::<char>::empty());
    assert(expr_html(v[0]) == t);
    assert(exprs_html(v) =~= t);
}

} // verus!

verus! {

/// The fence written around emphasis of kind `st` (`***`, `**`, `*`, `_`).
pub open spec fn fence_text(st: Emphasis) -> Seq<char> {
    Seq::new(fence_len(st) as nat, |j: int| fence_char(st))
}

/// The Fountain text that an expression is read from: its text, inside the
/// fences of its emphasis.
pub open spec fn expr_source(e: SExpr) -> Seq<char>
    decreases e,
{
    match e {
        SExpr::Text(t) => t,
        SExpr::Italic(v) => fence_text(Emphasis::Italic) + exprs_source(v) + fence_text(
            Emphasis::Italic,
        ),
        SExpr::Bold(v) => fence_text(Emphasis::Bold) + exprs_source(v) + fence_text(
            Emphasis::Bold,
        ),
        SExpr::BoldItalic(v) => fence_text(Emphasis::BoldItalic) + exprs_source(v) + fence_text(
            Emphasis::BoldItalic,
        ),
        SExpr::Underline(v) => fence_text(Emphasis::Underline) + exprs_source(v) + fence_text(
            Emphasis::Underline,
        ),
    }
}

/// The Fountain text of each expression, one after another.
pub open spec fn exprs_source(v: Seq<SExpr>) -> Seq<char>
    decreases v,
{
    if v.len() == 0 {
        Seq::empty()
    } else {
        exprs_source(v.subrange(0, v.len() - 1)) + expr_source(v[v.len() - 1])
    }
}

proof fn lemma_exprs_source_append(a: Seq<SExpr>, b: Seq<SExpr>)
    ensures
        exprs_source(a + b) == exprs_source(a) + exprs_source(b),
    decreases b.len(),
{
    if b.len() == 0 {
        assert(a + b =~= a);
        assert(exprs_source(a) + exprs_source(b) =~= exprs_source(a));
    } else {
        let b1 = b.subrange(0, b.len() - 1);
        lemma_exprs_source_append(a, b1);
        assert((a + b).subrange(0, (a + b).len() - 1) =~= a + b1);
        assert((a + b)[(a + b).len() - 1] == b[b.len() - 1]);
        assert(exprs_source(a + b) =~= exprs_source(a) + exprs_source(b));
    }
}

proof fn lemma_exprs_source_single(x: SExpr)
    ensures
        exprs_source(seq![x]) == expr_source(x),
{
    let v = seq![x];
    assert(v.subrange(0, 0) =~= Seq::<SExpr>::empty());
    assert(exprs_source(Seq::<SExpr>::empty()) == Seq::<char>::empty());
    assert(v[0] == x);
    assert(exprs_source(v) =~= expr_source(x));
}

proof fn lemma_find_fence_found(s: Seq<char>, i: int, hi: int, st: Emphasis)
    ensures
        find_fence(s, i, hi, st) matches Some(m) ==> fence_at(s, m, hi, st),
    decreases hi - i,
{
    if i < 0 || i + fence_len(st) > hi {
    } else if fence_at(s, i, hi, st) {
    } else {
        lemma_find_fence_found(s, i + 1, hi, st);
    }
}

proof fn lemma_first_directive_found(s: Seq<char>, lo: int, from: int, hi: int)
    ensures
        first_directive(s, lo, from, hi) matches Some((k, end, e)) ==> directive(s, lo, k, hi)
            == Some((end, e)),
    decreases hi - from,
{
    if from < lo || from >= hi {
    } else {
        match directive(s, lo, from, hi) {
            Some(_) => {},
            None => lemma_first_directive_found(s, lo, from + 1, hi),
        }
    }
}

/// Where the fence of `st` stands at `i`, the text there is that fence.
proof fn lemma_fence_text(s: Seq<char>, i: int, hi: int, st: Emphasis)
    requires
        fence_at(s, i, hi, st),
    ensures
        s.subrange(i, i + fence_len(st)) == fence_text(st),
{
    assert(s.subrange(i, i + fence_len(st)) =~= fence_text(st));
}

/// Reading `s[lo..hi]` loses, adds and reorders no text: the expressions,
/// written back with their fences, give `s[lo..hi]` again.
pub proof fn lemma_inline_source(s: Seq<char>, lo: int, hi: int)
    requires
        0 <= lo <= hi <= s.len(),
    ensures
        exprs_source(inline_spec(s, lo, hi)) == s.subrange(lo, hi),
    decreases hi - lo,
{
    if lo == hi {
        assert(inline_spec(s, lo, hi) =~= Seq::<SExpr>::empty());
        assert(s.subrange(lo, hi) =~= Seq::<char>::empty());
        return;
    }
    match first_directive(s, lo, lo, hi) {
        Some((k, end, e)) => {
            lemma_first_directive_range(s, lo, lo, hi);
            lemma_first_directive_found(s, lo, lo, hi);
            let st = if styled(s, lo, k, hi, Emphasis::BoldItalic) is Some {
                Emphasis::BoldItalic
            } else if styled(s, lo, k, hi, Emphasis::Bold) is Some {
                Emphasis::Bold
            } else if styled(s, lo, k, hi, Emphasis::Italic) is Some {
                Emphasis::Italic
            } else {
                Emphasis::Underline
            };
            assert(styled(s, lo, k, hi, st) == Some((end, e)));
            let n = fence_len(st);
            let a = k + n;
            let m = find_fence(s, a, hi, st)->Some_0;
            lemma_find_fence_found(s, a, hi, st);
            lemma_fence_text(s, k, hi, st);
            lemma_fence_text(s, m, hi, st);
            lemma_inline_source(s, a, m);
            assert(expr_source(e) == fence_text(st) + s.subrange(a, m) + fence_text(st));
            assert(expr_source(e) =~= s.subrange(k, end));
            let pre: Seq<SExpr> = if k > lo {
                seq![SExpr::Text(s.subrange(lo, k))]
            } else {
                Seq::empty()
            };
            let rest = inline_spec(s, end, hi);
            lemma_inline_source(s, end, hi);
            assert(inline_spec(s, lo, hi) == pre + seq![e] + rest);
            lemma_exprs_source_append(pre + seq![e], rest);
            lemma_exprs_source_append(pre, seq![e]);
            lemma_exprs_source_single(e);
            if k > lo {
                lemma_exprs_source_single(SExpr::Text(s.subrange(lo, k)));
            } else {
                assert(exprs_source(pre) =~= s.subrange(lo, k));
            }
            assert(exprs_source(inline_spec(s, lo, hi)) =~= s.subrange(lo, hi));
        },
        None => {
            lemma_exprs_source_single(SExpr::Text(s.subrange(lo, hi)));
        },
    }
}

/// Parsing inline emphasis loses, adds and reorders no text: the
/// expressions, written back with their fences, give the input again.
pub proof fn lemma_inline_round_trip(s: Seq<char>)
    ensures
        exprs_source(inline_spec(s, 0, s.len() as int)) == s,
{
    lemma_inline_source(s, 0, s.len() as int);
    assert(s.subrange(0, s.len() as int) =~= s);
}

} // verus!

verus! {

/// The length of the emphasis tag (`<i>`, `<b>`, `<u>`, `</i>`, `</b>` or
/// `</u>`) at the start of `t`; 0 where none stands there.
pub open spec fn tag_len(t: Seq<char>) -> int {
    if t.len() >= 3 && t[0] == '<' && (t[1] == 'i' || t[1] == 'b' || t[1] == 'u') && t[2] == '>' {
        3
    } else if t.len() >= 4 && t[0] == '<' && t[1] == '/' && (t[2] == 'i' || t[2] == 'b' || t[2]
        == 'u') && t[3] == '>' {
        4
    } else {
        0
    }
}

/// `t` with every emphasis tag taken out.
pub open spec fn strip_tags(t: Seq<char>) -> Seq<char>
    decreases t.len(),
{
    if t.len() == 0 {
        t
    } else if tag_len(t) > 0 {
        strip_tags(t.subrange(tag_len(t), t.len() as int))
    } else {
        seq![t[0]] + strip_tags(t.subrange(1, t.len() as int))
    }
}

/// The text leaves of an expression, left to right.
pub open spec fn expr_leaves(e: SExpr) -> Seq<char>
    decreases e,
{
    match e {
        SExpr::Text(t) => t,
        SExpr::Italic(v) => exprs_leaves(v),
        SExpr::Bold(v) => exprs_leaves(v),
        SExpr::BoldItalic(v) => exprs_leaves(v),
        SExpr::Underline(v) => exprs_leaves(v),
    }
}

/// The text leaves of each expression, one after another.
pub open spec fn exprs_leaves(v: Seq<SExpr>) -> Seq<char>
    decreases v,
{
    if v.len() == 0 {
        Seq::empty()
    } else {
        exprs_leaves(v.subrange(0, v.len() - 1)) + expr_leaves(v[v.len() - 1])
    }
}

/// Whether `t` holds no `<`.
pub open spec fn free_of_lt(t: Seq<char>) -> bool {
    forall|j: int| 0 <= j < t.len() ==> t[j] != '<'
}

proof fn lemma_strip_plain(a: Seq<char>, b: Seq<char>)
    requires
        free_of_lt(a),
    ensures
        strip_tags(a + b) == a + strip_tags(b),
    decreases a.len(),
{
    if a.len() > 0 {
        let t = a + b;
        assert(t[0] == a[0]);
        assert(tag_len(t) == 0);
        let a1 = a.subrange(1, a.len() as int);
        assert(t.subrange(1, t.len() as int) =~= a1 + b);
        lemma_strip_plain(a1, b);
        assert(a =~= seq![a[0]] + a1);
        assert(strip_tags(t) =~= a + strip_tags(b));
    } else {
        assert(a + b =~= b);
        assert(a + strip_tags(b) =~= strip_tags(b));
    }
}

proof fn lemma_strip_tag(tag: Seq<char>, b: Seq<char>)
    requires
        tag_len(tag) == tag.len(),
        tag.len() > 0,
    ensures
        strip_tags(tag + b) == strip_tags(b),
{
    let t = tag + b;
    assert(forall|j: int| 0 <= j < tag.len() ==> t[j] == tag[j]);
    assert(tag_len(t) == tag.len());
    assert(t.subrange(tag.len() as int, t.len() as int) =~= b);
}

proof fn lemma_tags()
    ensures
        tag_len("<i>"@) == 3,
        tag_len("<b>"@) == 3,
        tag_len("<u>"@) == 3,
        tag_len("</i>"@) == 4,
        tag_len("</b>"@) == 4,
        tag_len("</u>"@) == 4,
        "<i>"@.len() == 3,
        "<b>"@.len() == 3,
        "<u>"@.len() == 3,
        "</i>"@.len() == 4,
        "</b>"@.len() == 4,
        "</u>"@.len() == 4,
{
    reveal_strlit("<i>");
    reveal_strlit("<b>");
    reveal_strlit("<u>");
    reveal_strlit("</i>");
    reveal_strlit("</b>");
    reveal_strlit("</u>");
}

proof fn lemma_strip_wrapped(opening: Seq<char>, inner: Seq<char>, close: Seq<char>, r: Seq<char>)
    requires
        tag_len(opening) == opening.len() > 0,
        tag_len(close) == close.len() > 0,
    ensures
        strip_tags(opening + inner + close + r) == strip_tags(inner + (close + r)),
        strip_tags(close + r) == strip_tags(r),
{
    assert(opening + inner + close + r =~= opening + (inner + (close + r)));
    lemma_strip_tag(opening, inner + (close + r));
    lemma_strip_tag(close, r);
}

proof fn lemma_expr_strip(e: SExpr, r: Seq<char>)
    requires
        free_of_lt(expr_leaves(e)),
    ensures
        strip_tags(expr_html(e) + r) == expr_leaves(e) + strip_tags(r),
    decreases e,
{
    lemma_tags();
    match e {
        SExpr::Text(t) => {
            lemma_strip_plain(t, r);
        },
        SExpr::Italic(v) => {
            lemma_strip_wrapped("<i>"@, exprs_html(v), "</i>"@, r);
            lemma_exprs_strip(v, "</i>"@ + r);
        },
        SExpr::Bold(v) => {
            lemma_strip_wrapped("<b>"@, exprs_html(v), "</b>"@, r);
            lemma_exprs_strip(v, "</b>"@ + r);
        },
        SExpr::BoldItalic(v) => {
            lemma_strip_wrapped("<b>"@, exprs_html(v), "</b>"@, r);
            lemma_exprs_strip(v, "</b>"@ + r);
        },
        SExpr::Underline(v) => {
            lemma_strip_wrapped("<u>"@, exprs_html(v), "</u>"@, r);
            lemma_exprs_strip(v, "</u>"@ + r);
        },
    }
}

proof fn lemma_exprs_strip(v: Seq<SExpr>, r: Seq<char>)
    requires
        free_of_lt(exprs_leaves(v)),
    ensures
        strip_tags(exprs_html(v) + r) == exprs_leaves(v) + strip_tags(r),
    decreases v,
{
    if v.len() == 0 {
        assert(exprs_html(v) + r =~= r);
        assert(exprs_leaves(v) + strip_tags(r) =~= strip_tags(r));
    } else {
        let v1 = v.subrange(0, v.len() - 1);
        let x = v[v.len() - 1];
        let l1 = exprs_leaves(v1);
        let lx = expr_leaves(x);
        assert(exprs_leaves(v) == l1 + lx);
        assert(free_of_lt(l1)) by {
            assert forall|j: int| 0 <= j < l1.len() implies l1[j] != '<' by {
                assert((l1 + lx)[j] == l1[j]);
            }
        }
        assert(free_of_lt(lx)) by {
            assert forall|j: int| 0 <= j < lx.len() implies lx[j] != '<' by {
                assert((l1 + lx)[l1.len() + j] == lx[j]);
            }
        }
        lemma_exprs_strip(v1, expr_html(x) + r);
        lemma_expr_strip(x, r);
        assert(exprs_html(v) + r =~= exprs_html(v1) + (expr_html(x) + r));
        assert(exprs_leaves(v) + strip_tags(r) =~= l1 + (lx + strip_tags(r)));
    }
}

/// The HTML of an expression, with its tags taken out, is exactly its text
/// leaves in order: markup only adds tags. (Text holding `<` is left out,
/// since it could read as a tag.)
pub proof fn lemma_html_strips_to_leaves(e: SExpr)
    requires
        free_of_lt(expr_leaves(e)),
    ensures
        strip_tags(expr_html(e)) == expr_leaves(e),
{
    lemma_expr_strip(e, Seq::empty());
    assert(expr_html(e) + Seq::<char>::empty() =~= expr_html(e));
    assert(expr_leaves(e) + Seq::<char>::empty() =~= expr_leaves(e));
}

/// The HTML of a sequence of expressions (`exprs_as_html`), with every
/// `<i>`, `</i>`, `<b>`, `</b>`, `<u>` and `</u>` taken out, is exactly the
/// text leaves one after another: markup only adds tags. (Text holding `<`
/// is left out, since it could read as a tag.)
pub proof fn lemma_exprs_html_strips_to_leaves(v: Seq<SExpr>)
    requires
        free_of_lt(exprs_leaves(v)),
    ensures
        strip_tags(exprs_html(v)) == exprs_leaves(v),
{
    lemma_exprs_strip(v, Seq::empty());
    assert(exprs_html(v) + Seq::<char>::empty() =~= exprs_html(v));
    assert(exprs_leaves(v) + Seq::<char>::empty() =~= exprs_leaves(v));
}

} // verus!

