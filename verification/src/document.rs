//! The screenplay document: its elements, its title page, and what can be
//! read off them.
use vstd::prelude::*;
use crate::inline_parser::{exprs_as_html, exprs_html, inline_spec, parse_inline};
use crate::utils::{truncate_string, truncated};
use crate::text::{chars_of, is_whitespace, is_ws, join};

verus! {

/// A character's speech: who speaks, the parenthesised extensions after the
/// name (as in `WILL (V.O.)`), and the words spoken.
#[derive(Debug)]
pub struct Dialogue {
    pub character_name: String,
    pub character_extensions: Vec<String>,
    pub text: String,
}

/// A scene heading such as `EXT. A field in England`.
#[derive(Debug)]
pub struct SceneHeading {
    pub int_or_ext: String,
    pub text: String,
}

/// A paragraph of action, centered when written between `>` and `<`.
#[derive(Debug)]
pub struct Action {
    pub is_centered: bool,
    pub text: String,
}

/// One element of a screenplay.
#[derive(Debug)]
pub enum FarceElement {
    FDialogue(Dialogue),
    FSceneHeading(SceneHeading),
    FAction(Action),
    FPageBreak,
}

/// The title page: its fields, each key once (see `TitlePage::well_formed`),
/// in the order in which each key first appeared. A key written again takes
/// the value written last.
#[derive(Debug)]
pub struct TitlePage {
    pub fields: Vec<(String, String)>,
}

/// A parsed screenplay.
#[derive(Debug)]
pub struct FarceDocument {
    pub title_page: Option<TitlePage>,
    pub elements: Vec<FarceElement>,
}

/// The mathematical value of a [`FarceElement`].
pub enum SElement {
    Dialogue { name: Seq<char>, extensions: Seq<Seq<char>>, text: Seq<char> },
    SceneHeading { int_or_ext: Seq<char>, text: Seq<char> },
    Action { is_centered: bool, text: Seq<char> },
    PageBreak,
}

/// The mathematical value of a [`FarceDocument`]: the title page fields in
/// order, and the elements.
pub struct SDocument {
    pub title_page: Option<Seq<(Seq<char>, Seq<char>)>>,
    pub elements: Seq<SElement>,
}

pub open spec fn strings_view(v: Seq<String>) -> Seq<Seq<char>> {
    v.map_values(|s: String| s@)
}

pub open spec fn fields_view(v: Seq<(String, String)>) -> Seq<(Seq<char>, Seq<char>)> {
    v.map_values(|f: (String, String)| (f.0@, f.1@))
}

impl View for FarceElement {
    type V = SElement;

    open spec fn view(&self) -> SElement {
        match self {
            FarceElement::FDialogue(d) => SElement::Dialogue {
                name: d.character_name@,
                extensions: strings_view(d.character_extensions@),
                text: d.text@,
            },
            FarceElement::FSceneHeading(h) => SElement::SceneHeading {
                int_or_ext: h.int_or_ext@,
                text: h.text@,
            },
            FarceElement::FAction(a) => SElement::Action { is_centered: a.is_centered, text: a.text@ },
            FarceElement::FPageBreak => SElement::PageBreak,
        }
    }
}

pub open spec fn elements_view(v: Seq<FarceElement>) -> Seq<SElement> {
    v.map_values(|e: FarceElement| e@)
}

impl View for FarceDocument {
    type V = SDocument;

    open spec fn view(&self) -> SDocument {
        SDocument {
            title_page: match self.title_page {
                Some(tp) => Some(fields_view(tp.fields@)),
                None => None,
            },
            elements: elements_view(self.elements@),
        }
    }
}

} // verus!

verus! {

/// The value of the last field named `key`, if any.
pub open spec fn field_lookup(fields: Seq<(Seq<char>, Seq<char>)>, key: Seq<char>) -> Option<Seq<char>>
    decreases fields.len(),
{
    if fields.len() == 0 {
        None
    } else if fields.last().0 == key {
        Some(fields.last().1)
    } else {
        field_lookup(fields.drop_last(), key)
    }
}

/// The line that names a speaker: the name, then each extension in
/// parentheses, separated by spaces (`FRED (V.O.) (CONT'D)`).
pub open spec fn character_line(name: Seq<char>, extensions: Seq<Seq<char>>) -> Seq<char> {
    if extensions.len() == 0 {
        name
    } else {
        name + " ("@ + join(extensions, ") ("@) + ")"@
    }
}

/// The number of words in `s`: maximal runs of characters that are not
/// whitespace (`str::split_whitespace().count()`).
pub open spec fn word_count(s: Seq<char>) -> nat
    decreases s.len(),
{
    if s.len() == 0 {
        0
    } else {
        word_count(s.drop_last()) + if !is_ws(s.last()) && (s.len() == 1 || is_ws(
            s[s.len() - 2],
        )) {
            1nat
        } else {
            0nat
        }
    }
}

/// The words in `s`, counted.
pub fn count_words(s: &String) -> (n: usize)
    ensures
        n == word_count(s@),
{
    let v = chars_of(s.as_str());
    let mut n: usize = 0;
    let mut i: usize = 0;
    assert(v@.take(0) =~= Seq::<char>::empty());
    while i < v.len()
        invariant
            i <= v.len(),
            n == word_count(v@.take(i as int)),
            n <= i,
        decreases v.len() - i,
    {
        let starts = !is_whitespace(v[i]) && (i == 0 || is_whitespace(v[i - 1]));
        proof {
            let t = v@.take(i + 1);
            assert(t.drop_last() =~= v@.take(i as int));
            assert(t.last() == v@[i as int]);
            if i > 0 {
                assert(t[t.len() - 2] == v@[i - 1]);
            }
        }
        if starts {
            n = n + 1;
        }
        i = i + 1;
    }
    assert(v@.take(v.len() as int) =~= v@);
    n
}

/// The strings joined with `sep` between each two.
pub fn join_strings(parts: &Vec<String>, sep: &str) -> (r: String)
    ensures
        r@ == join(strings_view(parts@), sep@),
{
    let ghost ps = strings_view(parts@);
    let mut out = String::new();
    let mut k: usize = 0;
    assert(ps.take(0) =~= Seq::<Seq<char>>::empty());
    while k < parts.len()
        invariant
            k <= parts.len(),
            ps == strings_view(parts@),
            out@ == join(ps.take(k as int), sep@),
        decreases parts.len() - k,
    {
        if k > 0 {
            out.append(sep);
        }
        out.append(parts[k].as_str());
        proof {
            let t = ps.take(k + 1);
            assert(t.drop_last() =~= ps.take(k as int));
            assert(t.last() == parts@[k as int]@);
            assert(out@ =~= join(t, sep@));
        }
        k = k + 1;
    }
    assert(ps.take(parts.len() as int) =~= ps);
    out
}

/// The HTML for a line of text with its inline emphasis.
pub open spec fn emphasis_html(t: Seq<char>) -> Seq<char> {
    exprs_html(inline_spec(t, 0, t.len() as int))
}

/// The HTML for one element (centered and plain action are written alike).
pub open spec fn element_html(e: SElement) -> Seq<char> {
    match e {
        SElement::SceneHeading { int_or_ext, text } => "<div class=\"scene-heading\">\n<p>"@
            + int_or_ext + ". "@ + text + "</p>\n</div>\n\n"@,
        SElement::Dialogue { name, extensions, text } => "<div class=\"element-dialogue\">\n<p>"@
            + emphasis_html(character_line(name, extensions)) + "</p>\n<p>"@ + emphasis_html(text)
            + "</p>\n</div>\n\n"@,
        SElement::Action { is_centered, text } => "<div class=\"element-action\">\n<p>"@
            + emphasis_html(text) + "</p>\n</div>\n\n"@,
        SElement::PageBreak => "<div class=\"element-pagebreak\"></div>\n\n"@,
    }
}

/// The characters an element shows: a scene heading's text, a speaker's line
/// and speech, an action's text, nothing for a page break.
pub open spec fn element_chars(e: SElement) -> Seq<char> {
    match e {
        SElement::SceneHeading { int_or_ext, text } => text,
        SElement::Dialogue { name, extensions, text } => character_line(name, extensions) + text,
        SElement::Action { is_centered, text } => text,
        SElement::PageBreak => Seq::empty(),
    }
}

/// The characters that standard screenplay furniture (`INT.`, `EXT.`,
/// `(CONT'D)`-style extensions, underscores, spaces) may need.
pub open spec fn furniture_chars() -> Seq<char> {
    seq!['I', 'N', 'T', 'E', 'X', 'T', '.', '_', ' ', '(', ')']
}

/// Whether `c` is among the characters that a document's glyphs must cover:
/// any character other than `'\n'` shown by an element, and the furniture.
pub open spec fn document_has_char(els: Seq<SElement>, c: char) -> bool {
    ||| furniture_chars().contains(c)
    ||| c != '\n' && shown_before(els, els.len() as int, c)
}

impl TitlePage {
    /// The value of the last field named `key`.
    pub fn get(&self, key: &str) -> (r: Option<&String>)
        ensures
            match field_lookup(fields_view(self.fields@), key@) {
                Some(v) => r matches Some(s) && s@ == v,
                None => r is None,
            },
    {
        let k = String::from_str(key);
        let mut i = self.fields.len();
        assert(self.fields@.take(i as int) =~= self.fields@);
        while i > 0
            invariant
                i <= self.fields.len(),
                field_lookup(fields_view(self.fields@), key@) == field_lookup(
                    fields_view(self.fields@.take(i as int)),
                    key@,
                ),
                k@ == key@,
            decreases i,
        {
            proof {
                let t = self.fields@.take(i as int);
                assert(fields_view(t).drop_last() =~= fields_view(self.fields@.take(i - 1)));
            }
            if self.fields[i - 1].0 == k {
                return Some(&self.fields[i - 1].1);
            }
            i = i - 1;
        }
        None
    }
}

} // verus!

verus! {

/// The HTML for a line of text with its inline emphasis.
fn html_emphasis(s: &String) -> (r: String)
    ensures
        r@ == emphasis_html(s@),
{
    let (_rest, exprs) = match parse_inline(s.as_str()) {
        Ok(t) => t,
        Err(_) => {
            return String::new();
        },
    };
    exprs_as_html(&exprs)
}

impl Dialogue {
    /// The speaker's line: the name, then each extension in parentheses.
    pub fn character_line_as_text(&self) -> (r: String)
        ensures
            r@ == character_line(self.character_name@, strings_view(self.character_extensions@)),
    {
        if self.character_extensions.len() == 0 {
            self.character_name.clone()
        } else {
            let extensions = join_strings(&self.character_extensions, ") (");
            let mut s = self.character_name.clone();
            s.append(" (");
            s.append(extensions.as_str());
            s.append(")");
            s
        }
    }

    /// The number of words spoken.
    pub fn get_num_words(&self) -> (n: usize)
        ensures
            n == word_count(self.text@),
    {
        count_words(&self.text)
    }

    /// `NAME: speech`, the speech cut to twenty characters.
    pub fn display_text(&self) -> (r: String)
        ensures
            r@ == self.character_name@ + ": "@ + truncated(self.text@, 20),
    {
        let mut s = self.character_name.clone();
        s.append(": ");
        let t = truncate_string(&self.text, None);
        s.append(t.as_str());
        s
    }
}

impl SceneHeading {
    /// `INT: heading text`, the text cut to twenty characters.
    pub fn display_text(&self) -> (r: String)
        ensures
            r@ == self.int_or_ext@ + ": "@ + truncated(self.text@, 20),
    {
        let mut s = self.int_or_ext.clone();
        s.append(": ");
        let t = truncate_string(&self.text, None);
        s.append(t.as_str());
        s
    }
}

impl Action {
    /// The number of words in the action.
    pub fn get_num_words(&self) -> (n: usize)
        ensures
            n == word_count(self.text@),
    {
        count_words(&self.text)
    }
}

impl FarceElement {
    /// The HTML for this element (see `element_html`).
    pub fn as_html(&self) -> (r: String)
        ensures
            r@ == element_html(self@),
    {
        match self {
            FarceElement::FSceneHeading(h) => {
                let mut s = String::from_str("<div class=\"scene-heading\">\n<p>");
                s.append(h.int_or_ext.as_str());
                s.append(". ");
                s.append(h.text.as_str());
                s.append("</p>\n</div>\n\n");
                s
            },
            FarceElement::FDialogue(d) => {
                let mut s = String::from_str("<div class=\"element-dialogue\">\n<p>");
                let line = html_emphasis(&d.character_line_as_text());
                s.append(line.as_str());
                s.append("</p>\n<p>");
                let speech = html_emphasis(&d.text);
                s.append(speech.as_str());
                s.append("</p>\n</div>\n\n");
                s
            },
            FarceElement::FAction(a) => {
                let mut s = String::from_str("<div class=\"element-action\">\n<p>");
                let t = html_emphasis(&a.text);
                s.append(t.as_str());
                s.append("</p>\n</div>\n\n");
                s
            },
            FarceElement::FPageBreak => String::from_str("<div class=\"element-pagebreak\"></div>\n\n"),
        }
    }

    /// The characters this element shows (see `element_chars`).
    pub fn get_all_chars(&self) -> (r: String)
        ensures
            r@ == element_chars(self@),
    {
        match self {
            FarceElement::FSceneHeading(h) => h.text.clone(),
            FarceElement::FDialogue(d) => {
                let mut s = d.character_line_as_text();
                s.append(d.text.as_str());
                s
            },
            FarceElement::FAction(a) => a.text.clone(),
            FarceElement::FPageBreak => String::new(),
        }
    }
}

} // verus!

verus! {

/// Whether `c` occurs in `v`.
fn contains_char(v: &Vec<char>, c: char) -> (r: bool)
    ensures
        r == v@.contains(c),
{
    let mut i: usize = 0;
    while i < v.len()
        invariant
            i <= v.len(),
            forall|k: int| 0 <= k < i ==> v@[k] != c,
        decreases v.len() - i,
    {
        if v[i] == c {
            assert(v@[i as int] == c);
            return true;
        }
        i = i + 1;
    }
    false
}

/// No character occurs twice.
pub open spec fn distinct_chars(v: Seq<char>) -> bool {
    forall|i: int, j: int| 0 <= i < j < v.len() ==> v[i] != v[j]
}

/// Appends `c` to `v` unless it is there already.
fn add_char(v: &mut Vec<char>, c: char)
    requires
        distinct_chars(old(v)@),
    ensures
        distinct_chars(final(v)@),
        forall|d: char| final(v)@.contains(d) <==> (old(v)@.contains(d) || d == c),
{
    if !contains_char(v, c) {
        v.push(c);
        proof {
            assert forall|d: char| v@.contains(d) <==> (old(v)@.contains(d) || d == c) by {
                if old(v)@.contains(d) {
                    let k = choose|k: int| 0 <= k < old(v)@.len() && old(v)@[k] == d;
                    assert(v@[k] == d);
                }
                if d == c {
                    assert(v@[v@.len() - 1] == d);
                }
                if v@.contains(d) {
                    let k = choose|k: int| 0 <= k < v@.len() && v@[k] == d;
                    if k < old(v)@.len() {
                        assert(old(v)@[k] == d);
                    }
                }
            }
        }
    }
}

impl FarceDocument {
    /// The value of the last title page field named `field_name`, if there is
    /// a title page.
    pub fn get_titlepage_field(&self, field_name: &str) -> (r: Option<&String>)
        ensures
            match self@.title_page {
                Some(fs) => match field_lookup(fs, field_name@) {
                    Some(v) => r matches Some(s) && s@ == v,
                    None => r is None,
                },
                None => r is None,
            },
    {
        match &self.title_page {
            Some(title_page) => title_page.get(field_name),
            None => None,
        }
    }

    /// The `Title` field of the title page.
    pub fn get_title(&self) -> (r: Option<&String>)
        ensures
            match self@.title_page {
                Some(fs) => match field_lookup(fs, "Title"@) {
                    Some(v) => r matches Some(s) && s@ == v,
                    None => r is None,
                },
                None => r is None,
            },
    {
        self.get_titlepage_field("Title")
    }

    /// Whether the document has a title page.
    pub fn has_title_page(&self) -> (r: bool)
        ensures
            r == self.title_page is Some,
    {
        match &self.title_page {
            Some(_title_page) => true,
            None => false,
        }
    }

    /// Every character the document needs glyphs for (see
    /// `document_has_char`), each once.
    pub fn get_all_chars(&self) -> (r: Vec<char>)
        ensures
            distinct_chars(r@),
            forall|c: char| r@.contains(c) <==> document_has_char(self@.elements, c),
    {
        let ghost els = self@.elements;
        let mut unique: Vec<char> = Vec::new();
        let mut k: usize = 0;
        while k < self.elements.len()
            invariant
                k <= self.elements.len(),
                els == elements_view(self.elements@),
                distinct_chars(unique@),
                forall|c: char|
                    #![trigger unique@.contains(c)]
                    unique@.contains(c) <==> (c != '\n' && shown_before(els, k as int, c)),
            decreases self.elements.len() - k,
        {
            let text = self.elements[k].get_all_chars();
            let chars = chars_of(text.as_str());
            let ghost before = unique@;
            let mut i: usize = 0;
            while i < chars.len()
                invariant
                    i <= chars.len(),
                    distinct_chars(unique@),
                    forall|c: char|
                        #![trigger unique@.contains(c)]
                        unique@.contains(c) <==> (before.contains(c) || (c != '\n'
                            && chars@.take(i as int).contains(c))),
                decreases chars.len() - i,
            {
                let c = chars[i];
                let ghost prev = unique@;
                if c != '\n' {
                    add_char(&mut unique, c);
                }
                proof {
                    let t1 = chars@.take(i + 1);
                    let t0 = chars@.take(i as int);
                    assert(t1 =~= t0.push(c));
                    assert forall|d: char| #![trigger unique@.contains(d)]
                        unique@.contains(d) <==> (before.contains(d) || (d != '\n' && t1.contains(d))) by {
                        lemma_push_contains(t0, c, d);
                        assert(prev.contains(d) <==> (before.contains(d) || (d != '\n' && t0.contains(d))));
                    }
                }
                i = i + 1;
            }
            proof {
                assert(chars@.take(chars.len() as int) =~= chars@);
                assert(els[k as int] == self.elements@[k as int]@);
                assert(chars@ == element_chars(els[k as int]));
                assert forall|c: char| #![trigger unique@.contains(c)]
                    unique@.contains(c) <==> (c != '\n' && shown_before(els, k + 1, c)) by {
                    lemma_shown_before_step(els, k as int, c);
                    assert(before.contains(c) <==> (c != '\n' && shown_before(els, k as int, c)));
                }
            }
            k = k + 1;
        }
        let extra = ['I', 'N', 'T', 'E', 'X', 'T', '.', '_', ' ', '(', ')'];
        let ghost mid = unique@;
        assert(extra@ =~= furniture_chars());
        let mut i: usize = 0;
        while i < 11
            invariant
                i <= 11,
                extra@ == furniture_chars(),
                distinct_chars(unique@),
                forall|c: char|
                    #![trigger unique@.contains(c)]
                    unique@.contains(c) <==> (mid.contains(c) || extra@.take(i as int).contains(c)),
            decreases 11 - i,
        {
            let c = extra[i];
            let ghost prev = unique@;
            add_char(&mut unique, c);
            proof {
                let t0 = extra@.take(i as int);
                assert(extra@.take(i + 1) =~= t0.push(c));
                assert forall|d: char| #![trigger unique@.contains(d)]
                    unique@.contains(d) <==> (mid.contains(d) || extra@.take(i + 1).contains(d)) by {
                    lemma_push_contains(t0, c, d);
                    assert(prev.contains(d) <==> (mid.contains(d) || t0.contains(d)));
                }
            }
            i = i + 1;
        }
        proof {
            assert(extra@.take(11) =~= furniture_chars());
            assert(self.elements.len() == els.len());
            assert forall|c: char| #![trigger unique@.contains(c)]
                unique@.contains(c) <==> document_has_char(els, c) by {
                assert(mid.contains(c) <==> (c != '\n' && shown_before(els, els.len() as int, c)));
            }
        }
        unique
    }
}

/// Some element before position `k` shows `c`.
pub open spec fn shown_before(els: Seq<SElement>, k: int, c: char) -> bool {
    exists|m: int| 0 <= m < k && #[trigger] element_chars(els[m]).contains(c)
}

proof fn lemma_shown_before_step(els: Seq<SElement>, k: int, c: char)
    requires
        0 <= k,
    ensures
        shown_before(els, k + 1, c) <==> (shown_before(els, k, c) || element_chars(els[k]).contains(c)),
{
    if shown_before(els, k + 1, c) {
        let m = choose|m: int| 0 <= m < k + 1 && #[trigger] element_chars(els[m]).contains(c);
        if m < k {
            assert(shown_before(els, k, c));
        }
    }
    if element_chars(els[k]).contains(c) {
        assert(0 <= k < k + 1 && element_chars(els[k]).contains(c));
    }
}

proof fn lemma_push_contains(s: Seq<char>, c: char, d: char)
    ensures
        s.push(c).contains(d) <==> (s.contains(d) || d == c),
{
    if s.push(c).contains(d) {
        let m = choose|m: int| 0 <= m < s.push(c).len() && s.push(c)[m] == d;
        if m < s.len() {
            assert(s[m] == d);
        }
    }
    if s.contains(d) {
        let m = choose|m: int| 0 <= m < s.len() && s[m] == d;
        assert(s.push(c)[m] == d);
    }
    if d == c {
        assert(s.push(c)[s.len() as int] == d);
    }
}

} // verus!

verus! {

/// Reading a title page field gives back the value last written for it;
/// writing one field leaves the others as they were.
pub proof fn lemma_field_lookup_push(
    fs: Seq<(Seq<char>, Seq<char>)>,
    key: Seq<char>,
    value: Seq<char>,
    other: Seq<char>,
)
    requires
        other != key,
    ensures
        field_lookup(fs.push((key, value)), key) == Some(value),
        field_lookup(fs.push((key, value)), other) == field_lookup(fs, other),
{
    assert(fs.push((key, value)).drop_last() =~= fs);
}

} // verus!

verus! {

/// Whether no key occurs twice among `fields`.
pub open spec fn distinct_keys(fields: Seq<(Seq<char>, Seq<char>)>) -> bool {
    forall|i: int, j: int| 0 <= i < j < fields.len() ==> fields[i].0 != fields[j].0
}

/// The position of the last field named `key`, if any.
pub open spec fn key_index(fields: Seq<(Seq<char>, Seq<char>)>, key: Seq<char>) -> Option<int>
    decreases fields.len(),
{
    if fields.len() == 0 {
        None
    } else if fields.last().0 == key {
        Some(fields.len() - 1)
    } else {
        key_index(fields.drop_last(), key)
    }
}

/// Writes `value` for `key`: in place where the key is already there,
/// else as a new field at the end.
pub open spec fn upsert_field(fields: Seq<(Seq<char>, Seq<char>)>, key: Seq<char>, value: Seq<char>) -> Seq<(Seq<char>, Seq<char>)> {
    match key_index(fields, key) {
        Some(j) => fields.update(j, (key, value)),
        None => fields.push((key, value)),
    }
}

/// The fields written in turn with `upsert_field`: each key once, where it
/// first appeared, with the value written last.
pub open spec fn dedup_fields(fields: Seq<(Seq<char>, Seq<char>)>) -> Seq<(Seq<char>, Seq<char>)>
    decreases fields.len(),
{
    if fields.len() == 0 {
        fields
    } else {
        let f = fields.last();
        upsert_field(dedup_fields(fields.drop_last()), f.0, f.1)
    }
}

impl TitlePage {
    /// Each key occurs once.
    pub open spec fn well_formed(&self) -> bool {
        distinct_keys(fields_view(self.fields@))
    }
}

proof fn lemma_key_index(fields: Seq<(Seq<char>, Seq<char>)>, key: Seq<char>)
    ensures
        match key_index(fields, key) {
            Some(j) => 0 <= j < fields.len() && fields[j].0 == key && field_lookup(fields, key)
                == Some(fields[j].1) && forall|m: int| j < m < fields.len() ==> fields[m].0 != key,
            None => field_lookup(fields, key) is None && forall|m: int|
                0 <= m < fields.len() ==> fields[m].0 != key,
        },
    decreases fields.len(),
{
    if fields.len() > 0 && fields.last().0 != key {
        let d = fields.drop_last();
        lemma_key_index(d, key);
        assert forall|m: int| 0 <= m < d.len() implies fields[m] == d[m] by {}
    }
}

/// Where two field lists carry the same key at every position, a key is
/// found at the same position in both.
proof fn lemma_key_index_same_keys(
    a: Seq<(Seq<char>, Seq<char>)>,
    b: Seq<(Seq<char>, Seq<char>)>,
    key: Seq<char>,
)
    requires
        a.len() == b.len(),
        forall|m: int| 0 <= m < a.len() ==> a[m].0 == b[m].0,
    ensures
        key_index(a, key) == key_index(b, key),
    decreases a.len(),
{
    if a.len() > 0 && a.last().0 != key {
        lemma_key_index_same_keys(a.drop_last(), b.drop_last(), key);
    }
}

/// Writing a field in place reads back as writing it at the end, and keeps
/// each key once.
pub proof fn lemma_upsert_field(
    fields: Seq<(Seq<char>, Seq<char>)>,
    key: Seq<char>,
    value: Seq<char>,
    other: Seq<char>,
)
    ensures
        field_lookup(upsert_field(fields, key, value), other) == field_lookup(
            fields.push((key, value)),
            other,
        ),
        distinct_keys(fields) ==> distinct_keys(upsert_field(fields, key, value)),
{
    lemma_key_index(fields, key);
    let u = upsert_field(fields, key, value);
    assert(fields.push((key, value)).drop_last() =~= fields);
    match key_index(fields, key) {
        Some(j) => {
            lemma_key_index_same_keys(u, fields, other);
            lemma_key_index(u, other);
            lemma_key_index(fields, other);
        },
        None => {
            assert(u.drop_last() =~= fields);
        },
    }
}

/// Writing the fields in turn with `upsert_field` keeps what every key reads,
/// and leaves each key once.
pub proof fn lemma_dedup_fields(fields: Seq<(Seq<char>, Seq<char>)>, key: Seq<char>)
    ensures
        field_lookup(dedup_fields(fields), key) == field_lookup(fields, key),
        distinct_keys(dedup_fields(fields)),
    decreases fields.len(),
{
    if fields.len() > 0 {
        let f = fields.last();
        let d = dedup_fields(fields.drop_last());
        lemma_dedup_fields(fields.drop_last(), key);
        lemma_dedup_fields(fields.drop_last(), f.0);
        lemma_upsert_field(d, f.0, f.1, key);
        assert(d.push((f.0, f.1)).drop_last() =~= d);
    }
}

} // verus!

verus! {

/// An action's HTML is its `element-action` div around the HTML of its
/// text's inline emphasis, whether or not it is centered; a speech's text is
/// written with its emphasis in the same way.
pub proof fn lemma_emphasis_in_element_html(
    centered: bool,
    name: Seq<char>,
    extensions: Seq<Seq<char>>,
    t: Seq<char>,
)
    ensures
        element_html(SElement::Action { is_centered: centered, text: t })
            == "<div class=\"element-action\">\n<p>"@ + exprs_html(inline_spec(t, 0, t.len() as int))
            + "</p>\n</div>\n\n"@,
        element_html(SElement::Action { is_centered: centered, text: t }) == element_html(
            SElement::Action { is_centered: !centered, text: t },
        ),
        element_html(SElement::Dialogue { name, extensions, text: t })
            == "<div class=\"element-dialogue\">\n<p>"@ + exprs_html(
            inline_spec(character_line(name, extensions), 0, character_line(name, extensions).len() as int),
        ) + "</p>\n<p>"@ + exprs_html(inline_spec(t, 0, t.len() as int)) + "</p>\n</div>\n\n"@,
{
}

/// Whitespace of any kind, a line break included, separates words: the
/// words on either side of it are counted apart.
pub proof fn lemma_word_count_split(a: Seq<char>, c: char, b: Seq<char>)
    requires
        is_ws(c),
    ensures
        word_count(a + seq![c] + b) == word_count(a) + word_count(b),
    decreases b.len(),
{
    let x = a + seq![c] + b;
    if b.len() == 0 {
        assert(x =~= a.push(c));
        assert(x.drop_last() =~= a);
    } else {
        let b1 = b.drop_last();
        lemma_word_count_split(a, c, b1);
        assert(x.drop_last() =~= a + seq![c] + b1);
        assert(x.last() == b.last());
        if b.len() == 1 {
            assert(x[x.len() - 2] == c);
        } else {
            assert(x[x.len() - 2] == b[b.len() - 2]);
        }
    }
}

/// A run of characters none of which is whitespace is one word.
pub proof fn lemma_word_count_one_word(w: Seq<char>)
    requires
        w.len() > 0,
        forall|k: int| 0 <= k < w.len() ==> !is_ws(#[trigger] w[k]),
    ensures
        word_count(w) == 1,
    decreases w.len(),
{
    assert(!is_ws(w[w.len() - 1]));
    if w.len() > 1 {
        let d = w.drop_last();
        assert forall|k: int| 0 <= k < d.len() implies !is_ws(#[trigger] d[k]) by {
            assert(d[k] == w[k]);
        }
        lemma_word_count_one_word(d);
        assert(!is_ws(w[w.len() - 2]));
    } else {
        assert(w.drop_last().len() == 0);
        assert(word_count(w.drop_last()) == 0);
    }
}

} // verus!
