//! The screenplay as an HTML page.
use vstd::prelude::*;
use crate::constants::{DEFAULT_CREDIT, DEFAULT_TITLE};
use crate::document::{element_html, field_lookup, FarceDocument, SDocument, SElement, TitlePage};
use vstd::utf8::encode_utf8;

verus! {

/// The start of a standalone page: its style sheet and the opening of `<body>`.
pub const HTML_HEADER: &'static str = "<html><head><style type=\"text/css\">
body { font-family: Courier; width: 800px; margin-left: 200px;}
p {margin: 0px;}
p {padding: 0px;}
.element-dialogue {padding-left: 100px; padding-right: 200px;}
div::after { content: \"\\00a0\";}
div.element-pagebreak {break-after:page; padding-bottom: 250px; }
div#title-page-credits {text-align: center; margin: 200px auto 200px auto;}
</style></head>\n\n<body>";

/// The end of a standalone page.
pub const HTML_FOOTER: &'static str = "</body></html>";

/// The HTML for a title page: the title in a paragraph (or the default title
/// as bare text), then, where there is an author, the credit (or the default
/// credit) and the author, each in a paragraph.
pub open spec fn title_page_html(fs: Seq<(Seq<char>, Seq<char>)>) -> Seq<char> {
    "<div id=\"title-page\">"@ + "<div id=\"title-page-credits\">"@ + match field_lookup(fs, "Title"@) {
        Some(t) => "<p>"@ + t + "</p>"@,
        None => DEFAULT_TITLE@,
    } + match field_lookup(fs, "Author"@) {
        Some(a) => "<p>"@ + match field_lookup(fs, "Credit"@) {
            Some(c) => c,
            None => DEFAULT_CREDIT@,
        } + "</p>"@ + "<p>"@ + a + "</p>"@,
        None => Seq::empty(),
    } + "</div>"@ + "</div>"@
}

/// The HTML of each element, one after another.
pub open spec fn elements_html(els: Seq<SElement>) -> Seq<char>
    decreases els.len(),
{
    if els.len() == 0 {
        Seq::empty()
    } else {
        elements_html(els.drop_last()) + element_html(els.last())
    }
}

/// The HTML for a document: the header if asked for, the title page if there
/// is one, each element, the footer if asked for.
pub open spec fn document_html(d: SDocument, include_header_and_footer: bool) -> Seq<char> {
    (if include_header_and_footer {
        HTML_HEADER@
    } else {
        Seq::empty()
    }) + match d.title_page {
        Some(fs) => title_page_html(fs),
        None => Seq::empty(),
    } + elements_html(d.elements) + (if include_header_and_footer {
        HTML_FOOTER@
    } else {
        Seq::empty()
    })
}

fn title_page_as_html(title_page: &TitlePage, out: &mut String)
    ensures
        final(out)@ == old(out)@ + title_page_html(crate::document::fields_view(title_page.fields@)),
{
    out.append("<div id=\"title-page\">");
    out.append("<div id=\"title-page-credits\">");
    match title_page.get("Title") {
        Some(title) => {
            out.append("<p>");
            out.append(title.as_str());
            out.append("</p>");
        },
        None => {
            out.append(DEFAULT_TITLE);
        },
    }
    match title_page.get("Author") {
        Some(author) => {
            out.append("<p>");
            match title_page.get("Credit") {
                Some(credit) => out.append(credit.as_str()),
                None => out.append(DEFAULT_CREDIT),
            }
            out.append("</p>");
            out.append("<p>");
            out.append(author.as_str());
            out.append("</p>");
        },
        None => {},
    }
    out.append("</div>");
    out.append("</div>");
    assert(final(out)@ =~= old(out)@ + title_page_html(crate::document::fields_view(title_page.fields@)));
}

/// The HTML for `document` (see `document_html`) as a string.
pub fn html_string(document: &FarceDocument, include_header_and_footer: bool) -> (r: String)
    ensures
        r@ == document_html(document@, include_header_and_footer),
{
    let mut out = String::new();
    if include_header_and_footer {
        out.append(HTML_HEADER);
    }
    let ghost after_header = out@;
    if let Some(title_page) = &document.title_page {
        title_page_as_html(title_page, &mut out);
    }
    let ghost after_title = out@;
    let ghost els = document@.elements;
    let mut k: usize = 0;
    assert(els.take(0) =~= Seq::<SElement>::empty());
    while k < document.elements.len()
        invariant
            k <= document.elements.len(),
            els == document@.elements,
            els.len() == document.elements.len(),
            out@ == after_title + elements_html(els.take(k as int)),
        decreases document.elements.len() - k,
    {
        let h = document.elements[k].as_html();
        out.append(h.as_str());
        proof {
            let t = els.take(k + 1);
            assert(t.drop_last() =~= els.take(k as int));
            assert(t.last() == document.elements@[k as int]@);
            assert(out@ =~= after_title + elements_html(t));
        }
        k = k + 1;
    }
    assert(els.take(els.len() as int) =~= els);
    if include_header_and_footer {
        out.append(HTML_FOOTER);
    }
    assert(out@ =~= document_html(document@, include_header_and_footer));
    out
}

/// Writes the HTML for `document` (see `document_html`), UTF-8 encoded, to
/// the end of `w`; this never fails.
pub fn write_html(document: FarceDocument, w: &mut Vec<u8>, include_header_and_footer: bool) -> (r: Result<(), String>)
    ensures
        r is Ok,
        final(w)@ == old(w)@ + encode_utf8(document_html(document@, include_header_and_footer)),
{
    let html = html_string(&document, include_header_and_footer);
    let bytes = html.as_str().as_bytes();
    w.extend_from_slice(bytes);
    assert(final(w)@ =~= old(w)@ + encode_utf8(document_html(document@, include_header_and_footer)));
    Ok(())
}

} // verus!

verus! {

/// A standalone page is the bare HTML between the header and the footer.
pub proof fn lemma_html_frame(d: SDocument)
    ensures
        document_html(d, true) == HTML_HEADER@ + document_html(d, false) + HTML_FOOTER@,
{
    assert(document_html(d, true) =~= HTML_HEADER@ + document_html(d, false) + HTML_FOOTER@);
}

/// The HTML of elements written one list after another is the HTML of each
/// list, one after the other.
pub proof fn lemma_elements_html_append(a: Seq<SElement>, b: Seq<SElement>)
    ensures
        elements_html(a + b) == elements_html(a) + elements_html(b),
    decreases b.len(),
{
    if b.len() == 0 {
        assert(a + b =~= a);
        assert(elements_html(a) + elements_html(b) =~= elements_html(a));
    } else {
        lemma_elements_html_append(a, b.drop_last());
        assert((a + b).drop_last() =~= a + b.drop_last());
        assert(elements_html(a + b) =~= elements_html(a) + elements_html(b));
    }
}

} // verus!
