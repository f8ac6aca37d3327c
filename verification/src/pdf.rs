//! The page layout of a screenplay in the standard screenplay format: what
//! goes on the pages, in which style and with which indentation. Lengths are
//! in micrometres.
use vstd::prelude::*;
use crate::constants::{DEFAULT_CREDIT, DEFAULT_TITLE};
use crate::document::{
    character_line, elements_view, field_lookup, FarceDocument, FarceElement, SDocument, SElement,
};
use crate::inline_parser::{
    expr_leaves, expr_view, exprs_leaves, exprs_view, inline_spec, lemma_exprs_view_push, parse_inline,
    Expression, SExpr,
};
use crate::text::{decimal, push_decimal};

verus! {

/// The paper a screenplay is laid out on.
#[derive(Copy, Clone, Debug, PartialEq, Eq)]
pub enum PaperSize {
    A4,
    Letter,
}

impl PaperSize {
    /// The paper's name as shown to a user.
    pub fn label(&self) -> (r: String)
        ensures
            r@ == match self {
                PaperSize::A4 => "A4"@,
                PaperSize::Letter => "US Letter"@,
            },
    {
        match self {
            PaperSize::A4 => String::from_str("A4"),
            PaperSize::Letter => String::from_str("US Letter"),
        }
    }
}

/// The emphasis in force while text is laid out.
#[derive(Copy, Clone, Debug, PartialEq, Eq)]
pub struct TextState {
    pub bold: bool,
    pub italic: bool,
    pub underline: bool,
}

/// A run of text in one style.
#[derive(Debug)]
pub struct StyledSpan {
    pub text: String,
    pub style: TextState,
}

/// How a paragraph is aligned.
#[derive(Copy, Clone, Debug, PartialEq, Eq)]
pub enum Alignment {
    Left,
    Center,
    Right,
}

/// Space around a paragraph, in micrometres.
#[derive(Copy, Clone, Debug, PartialEq, Eq)]
pub struct Margins {
    pub top: u32,
    pub right: u32,
    pub bottom: u32,
    pub left: u32,
}

/// One piece of the layout.
#[derive(Debug)]
pub enum PdfBlock {
    /// A paragraph of styled runs.
    Paragraph { spans: Vec<StyledSpan>, alignment: Alignment, padding: Option<Margins> },
    /// That many blank lines.
    Break(u32),
    /// The start of a new page.
    PageBreak,
}

/// What goes on the pages of a screenplay.
#[derive(Debug)]
pub struct PdfLayout {
    pub paper_size: PaperSize,
    pub title: String,
    pub has_title_page: bool,
    pub font_size: u8,
    /// The distance between lines, in thousandths of the font's line height.
    pub line_spacing: u32,
    /// Whether the PDF is written with the least conformance it allows.
    pub minimal_conformance: bool,
    pub page_margins: Margins,
    pub blocks: Vec<PdfBlock>,
}

/// What stands at the top of a page: its blocks, top to bottom, and the
/// font size they are set in.
#[derive(Debug)]
pub struct PageHeader {
    pub blocks: Vec<PdfBlock>,
    pub font_size: u8,
}

/// The mathematical value of a [`StyledSpan`].
pub type SSpan = (Seq<char>, TextState);

/// The mathematical value of a [`PdfBlock`].
pub enum SBlock {
    Paragraph { spans: Seq<SSpan>, alignment: Alignment, padding: Option<Margins> },
    Break(nat),
    PageBreak,
}

pub open spec fn spans_view(v: Seq<StyledSpan>) -> Seq<SSpan> {
    v.map_values(|s: StyledSpan| (s.text@, s.style))
}

pub open spec fn block_view(b: PdfBlock) -> SBlock {
    match b {
        PdfBlock::Paragraph { spans, alignment, padding } => SBlock::Paragraph {
            spans: spans_view(spans@),
            alignment,
            padding,
        },
        PdfBlock::Break(n) => SBlock::Break(n as nat),
        PdfBlock::PageBreak => SBlock::PageBreak,
    }
}

pub open spec fn blocks_view(v: Seq<PdfBlock>) -> Seq<SBlock> {
    v.map_values(|b: PdfBlock| block_view(b))
}

pub open spec fn plain() -> TextState {
    TextState { bold: false, italic: false, underline: false }
}

/// Laying out one expression from state `st`: its text in the current
/// style; emphasis switched on for what it holds and off afterwards.
pub open spec fn render_one(e: SExpr, st: TextState) -> (Seq<SSpan>, TextState)
    decreases e,
{
    match e {
        SExpr::Text(t) => (seq![(t, st)], st),
        SExpr::Bold(v) => {
            let r = render_spans(v, TextState { bold: true, ..st });
            (r.0, TextState { bold: false, ..r.1 })
        },
        SExpr::Italic(v) => {
            let r = render_spans(v, TextState { italic: true, ..st });
            (r.0, TextState { italic: false, ..r.1 })
        },
        SExpr::BoldItalic(v) => {
            let r = render_spans(v, TextState { bold: true, italic: true, ..st });
            (r.0, TextState { bold: false, italic: false, ..r.1 })
        },
        SExpr::Underline(v) => {
            let r = render_spans(v, TextState { underline: true, ..st });
            (r.0, TextState { underline: false, ..r.1 })
        },
    }
}

/// Laying out expressions one after another, each from the state the one
/// before it left.
pub open spec fn render_spans(es: Seq<SExpr>, st: TextState) -> (Seq<SSpan>, TextState)
    decreases es,
{
    if es.len() == 0 {
        (Seq::empty(), st)
    } else {
        let a = render_spans(es.subrange(0, es.len() - 1), st);
        let b = render_one(es[es.len() - 1], a.1);
        (a.0 + b.0, b.1)
    }
}

/// The styled runs for a line of text with inline emphasis.
pub open spec fn inline_spans(t: Seq<char>) -> Seq<SSpan> {
    render_spans(inline_spec(t, 0, t.len() as int), plain()).0
}

/// The text of the runs, one after another.
pub open spec fn spans_text(spans: Seq<SSpan>) -> Seq<char>
    decreases spans.len(),
{
    if spans.len() == 0 {
        Seq::empty()
    } else {
        spans_text(spans.drop_last()) + spans.last().0
    }
}

proof fn lemma_spans_text_append(a: Seq<SSpan>, b: Seq<SSpan>)
    ensures
        spans_text(a + b) == spans_text(a) + spans_text(b),
    decreases b.len(),
{
    if b.len() == 0 {
        assert(a + b =~= a);
        assert(spans_text(a) + spans_text(b) =~= spans_text(a));
    } else {
        lemma_spans_text_append(a, b.drop_last());
        assert((a + b).drop_last() =~= a + b.drop_last());
        assert(spans_text(a + b) =~= spans_text(a) + spans_text(b));
    }
}

proof fn lemma_render_one_text(e: SExpr, st: TextState)
    ensures
        spans_text(render_one(e, st).0) == expr_leaves(e),
    decreases e,
{
    match e {
        SExpr::Text(t) => {
            let v = seq![(t, st)];
            assert(v.drop_last() =~= Seq::<SSpan>::empty());
            assert(spans_text(Seq::<SSpan>::empty()) == Seq::<char>::empty());
            assert(v.last().0 == t);
            assert(spans_text(v) =~= t);
        },
        SExpr::Bold(v) => lemma_render_spans_text(v, TextState { bold: true, ..st }),
        SExpr::Italic(v) => lemma_render_spans_text(v, TextState { italic: true, ..st }),
        SExpr::BoldItalic(v) => lemma_render_spans_text(
            v,
            TextState { bold: true, italic: true, ..st },
        ),
        SExpr::Underline(v) => lemma_render_spans_text(v, TextState { underline: true, ..st }),
    }
}

proof fn lemma_render_spans_text(es: Seq<SExpr>, st: TextState)
    ensures
        spans_text(render_spans(es, st).0) == exprs_leaves(es),
    decreases es,
{
    if es.len() > 0 {
        let es1 = es.subrange(0, es.len() - 1);
        let a = render_spans(es1, st);
        lemma_render_spans_text(es1, st);
        lemma_render_one_text(es[es.len() - 1], a.1);
        lemma_spans_text_append(a.0, render_one(es[es.len() - 1], a.1).0);
    }
}

/// Laying out a line loses, adds and reorders no text: the runs' texts, one
/// after another, are the text leaves of the line's emphasis, whatever the
/// styles.
pub proof fn lemma_inline_spans_text(t: Seq<char>)
    ensures
        spans_text(inline_spans(t)) == exprs_leaves(inline_spec(t, 0, t.len() as int)),
{
    lemma_render_spans_text(inline_spec(t, 0, t.len() as int), plain());
}

fn render_expression(p: &mut Vec<StyledSpan>, e: &Expression, text_state: &mut TextState)
    ensures
        spans_view(final(p)@) == spans_view(old(p)@) + render_one(expr_view(*e), *old(text_state)).0,
        *final(text_state) == render_one(expr_view(*e), *old(text_state)).1,
    decreases e,
{
    let ghost p0 = spans_view(p@);
    match e {
        Expression::Text(t) => {
            p.push(StyledSpan { text: t.clone(), style: *text_state });
            assert(spans_view(p@) =~= p0 + seq![(t@, *old(text_state))]);
        },
        Expression::Bold(v) => {
            text_state.bold = true;
            render_text_elements(p, v, text_state);
            text_state.bold = false;
        },
        Expression::Italic(v) => {
            text_state.italic = true;
            render_text_elements(p, v, text_state);
            text_state.italic = false;
        },
        Expression::BoldItalic(v) => {
            text_state.bold = true;
            text_state.italic = true;
            render_text_elements(p, v, text_state);
            text_state.bold = false;
            text_state.italic = false;
        },
        Expression::Underline(v) => {
            text_state.underline = true;
            render_text_elements(p, v, text_state);
            text_state.underline = false;
        },
    }
}

/// Lays out `expressions` (see `render_spans`), appending the runs to `p`.
pub fn render_text_elements(p: &mut Vec<StyledSpan>, expressions: &Vec<Expression>, text_state: &mut TextState)
    ensures
        spans_view(final(p)@) == spans_view(old(p)@) + render_spans(exprs_view(expressions@), *old(text_state)).0,
        *final(text_state) == render_spans(exprs_view(expressions@), *old(text_state)).1,
    decreases expressions,
{
    let ghost p0 = spans_view(p@);
    let ghost st0 = *text_state;
    let mut i: usize = 0;
    assert(expressions@.take(0) =~= Seq::<Expression>::empty());
    assert(exprs_view(expressions@.take(0)) == Seq::<SExpr>::empty());
    assert(spans_view(p@) =~= p0 + render_spans(exprs_view(expressions@.take(0)), st0).0);
    while i < expressions.len()
        invariant
            i <= expressions.len(),
            spans_view(p@) == p0 + render_spans(exprs_view(expressions@.take(i as int)), st0).0,
            *text_state == render_spans(exprs_view(expressions@.take(i as int)), st0).1,
        decreases expressions.len() - i,
    {
        proof {
            assert(decreases_to!(expressions => expressions@));
            assert(decreases_to!(expressions@ => expressions@[i as int]));
        }
        let ghost before = spans_view(p@);
        render_expression(p, &expressions[i], text_state);
        proof {
            assert(expressions@.take(i + 1) =~= expressions@.take(i as int).push(expressions@[i as int]));
            lemma_exprs_view_push(expressions@.take(i as int), expressions@[i as int]);
            let xs = exprs_view(expressions@.take(i + 1));
            assert(xs.subrange(0, xs.len() - 1) =~= exprs_view(expressions@.take(i as int)));
            assert(xs[xs.len() - 1] == expr_view(expressions@[i as int]));
            assert(spans_view(p@) =~= p0 + render_spans(xs, st0).0);
        }
        i = i + 1;
    }
    assert(expressions@.take(expressions.len() as int) =~= expressions@);
}

/// The styled runs for a line of text with inline emphasis (see
/// `inline_spans`).
pub fn render_inline_formatting(text: &String) -> (r: Vec<StyledSpan>)
    ensures
        spans_view(r@) == inline_spans(text@),
{
    let mut p: Vec<StyledSpan> = Vec::new();
    match parse_inline(text.as_str()) {
        Ok((_remainder, expressions)) => {
            let mut text_state = TextState { bold: false, italic: false, underline: false };
            render_text_elements(&mut p, &expressions, &mut text_state);
            assert(spans_view(p@) =~= inline_spans(text@));
            p
        },
        Err(_) => p,
    }
}

} // verus!

verus! {

/// Micrometres in `thousandths` thousandths of an inch.
pub open spec fn inches(thousandths: nat) -> nat {
    thousandths * 254 / 10
}

fn inches_exec(thousandths: u32) -> (um: u32)
    requires
        thousandths <= 100_000,
    ensures
        um == inches(thousandths as nat),
{
    thousandths * 254 / 10
}

/// Where the speaker's name stands: 1.9" from the text's left edge.
pub open spec fn name_padding() -> Margins {
    Margins { top: 0, right: 0, bottom: 0, left: inches(1900) as u32 }
}

/// Where speech stands: 0.875" in from the left, 1.3" in from the right.
pub open spec fn speech_padding() -> Margins {
    Margins { top: 0, right: inches(1300) as u32, bottom: 0, left: inches(875) as u32 }
}

/// The page margins: 0.5" top, 0.8" right, 1" bottom, 1.5" left.
pub open spec fn page_margins() -> Margins {
    Margins {
        top: inches(500) as u32,
        right: inches(800) as u32,
        bottom: inches(1000) as u32,
        left: inches(1500) as u32,
    }
}

pub open spec fn one_span(t: Seq<char>, st: TextState) -> Seq<SSpan> {
    seq![(t, st)]
}

/// The blocks for one element: an action's text with its emphasis; a
/// speaker's line indented and the speech indented on both sides; a scene
/// heading in bold; a blank line after each; a page break as a page break.
pub open spec fn element_blocks(e: SElement) -> Seq<SBlock> {
    match e {
        SElement::Action { is_centered, text } => seq![
            SBlock::Paragraph { spans: inline_spans(text), alignment: Alignment::Left, padding: None },
            SBlock::Break(1),
        ],
        SElement::Dialogue { name, extensions, text } => seq![
            SBlock::Paragraph {
                spans: one_span(character_line(name, extensions), plain()),
                alignment: Alignment::Left,
                padding: Some(name_padding()),
            },
            SBlock::Paragraph {
                spans: inline_spans(text),
                alignment: Alignment::Left,
                padding: Some(speech_padding()),
            },
            SBlock::Break(1),
        ],
        SElement::SceneHeading { int_or_ext, text } => seq![
            SBlock::Paragraph {
                spans: one_span(int_or_ext + ". "@ + text, TextState { bold: true, ..plain() }),
                alignment: Alignment::Left,
                padding: None,
            },
            SBlock::Break(1),
        ],
        SElement::PageBreak => seq![SBlock::PageBreak],
    }
}

pub open spec fn elements_blocks(els: Seq<SElement>) -> Seq<SBlock>
    decreases els.len(),
{
    if els.len() == 0 {
        Seq::empty()
    } else {
        elements_blocks(els.drop_last()) + element_blocks(els.last())
    }
}

/// The document's title: its `Title` field, else the default title.
pub open spec fn layout_title(d: SDocument) -> Seq<char> {
    match d.title_page {
        Some(fs) => match field_lookup(fs, "Title"@) {
            Some(t) => t,
            None => DEFAULT_TITLE@,
        },
        None => DEFAULT_TITLE@,
    }
}

pub open spec fn centered(t: Seq<char>) -> SBlock {
    SBlock::Paragraph { spans: one_span(t, plain()), alignment: Alignment::Center, padding: None }
}

/// The title page, where the document has one: ten blank lines, the title
/// centered, and, where there is an author, the credit (or the default
/// credit) and the author centered; then a page break.
pub open spec fn title_blocks(d: SDocument) -> Seq<SBlock> {
    match d.title_page {
        Some(fs) => seq![SBlock::Break(10), centered(layout_title(d)), SBlock::Break(1)]
            + match field_lookup(fs, "Author"@) {
            Some(a) => seq![
                centered(
                    match field_lookup(fs, "Credit"@) {
                        Some(c) => c,
                        None => DEFAULT_CREDIT@,
                    },
                ),
                SBlock::Break(1),
                centered(a),
            ],
            None => Seq::empty(),
        } + seq![SBlock::PageBreak],
        None => Seq::empty(),
    }
}

/// The mathematical value of a [`PdfLayout`].
pub struct SLayout {
    pub paper_size: PaperSize,
    pub title: Seq<char>,
    pub has_title_page: bool,
    pub font_size: nat,
    pub line_spacing: nat,
    pub minimal_conformance: bool,
    pub page_margins: Margins,
    pub blocks: Seq<SBlock>,
}

pub open spec fn layout_view(l: PdfLayout) -> SLayout {
    SLayout {
        paper_size: l.paper_size,
        title: l.title@,
        has_title_page: l.has_title_page,
        font_size: l.font_size as nat,
        line_spacing: l.line_spacing as nat,
        minimal_conformance: l.minimal_conformance,
        page_margins: l.page_margins,
        blocks: blocks_view(l.blocks@),
    }
}

/// The layout of a document: on the given paper, in 12 point with single
/// line spacing, written with minimal conformance, the title page (if any)
/// then the elements' blocks.
pub open spec fn layout(d: SDocument, paper_size: PaperSize) -> SLayout {
    SLayout {
        paper_size,
        title: layout_title(d),
        has_title_page: d.title_page is Some,
        font_size: 12,
        line_spacing: 1000,
        minimal_conformance: true,
        page_margins: page_margins(),
        blocks: title_blocks(d) + elements_blocks(d.elements),
    }
}

fn push_block(blocks: &mut Vec<PdfBlock>, b: PdfBlock)
    ensures
        blocks_view(final(blocks)@) == blocks_view(old(blocks)@).push(block_view(b)),
{
    let ghost bv = block_view(b);
    blocks.push(b);
    assert(blocks_view(blocks@) =~= blocks_view(old(blocks)@).push(bv));
}

fn plain_span(t: String) -> (r: Vec<StyledSpan>)
    ensures
        spans_view(r@) == one_span(t@, plain()),
{
    let mut v: Vec<StyledSpan> = Vec::new();
    v.push(StyledSpan { text: t, style: TextState { bold: false, italic: false, underline: false } });
    assert(spans_view(v@) =~= one_span(t@, plain()));
    v
}

fn push_centered(blocks: &mut Vec<PdfBlock>, t: &String)
    ensures
        blocks_view(final(blocks)@) == blocks_view(old(blocks)@).push(centered(t@)),
{
    let b = PdfBlock::Paragraph { spans: plain_span(t.clone()), alignment: Alignment::Center, padding: None };
    blocks.push(b);
    assert(blocks_view(blocks@) =~= blocks_view(old(blocks)@).push(centered(t@)));
}

fn push_element_blocks(blocks: &mut Vec<PdfBlock>, element: &FarceElement)
    ensures
        blocks_view(final(blocks)@) == blocks_view(old(blocks)@) + element_blocks(element@),
{
    let ghost b0 = blocks_view(blocks@);
    match element {
        FarceElement::FAction(action) => {
            blocks.push(PdfBlock::Paragraph {
                spans: render_inline_formatting(&action.text),
                alignment: Alignment::Left,
                padding: None,
            });
            blocks.push(PdfBlock::Break(1));
        },
        FarceElement::FDialogue(dialogue) => {
            let name_pad = Margins { top: 0, right: 0, bottom: 0, left: inches_exec(1900) };
            let speech_pad = Margins { top: 0, right: inches_exec(1300), bottom: 0, left: inches_exec(875) };
            blocks.push(PdfBlock::Paragraph {
                spans: plain_span(dialogue.character_line_as_text()),
                alignment: Alignment::Left,
                padding: Some(name_pad),
            });
            blocks.push(PdfBlock::Paragraph {
                spans: render_inline_formatting(&dialogue.text),
                alignment: Alignment::Left,
                padding: Some(speech_pad),
            });
            blocks.push(PdfBlock::Break(1));
        },
        FarceElement::FSceneHeading(scene_heading) => {
            let mut t = scene_heading.int_or_ext.clone();
            t.append(". ");
            t.append(scene_heading.text.as_str());
            let mut spans: Vec<StyledSpan> = Vec::new();
            spans.push(StyledSpan { text: t, style: TextState { bold: true, italic: false, underline: false } });
            assert(spans_view(spans@) =~= one_span(
                scene_heading.int_or_ext@ + ". "@ + scene_heading.text@,
                TextState { bold: true, ..plain() },
            ));
            blocks.push(PdfBlock::Paragraph { spans, alignment: Alignment::Left, padding: None });
            blocks.push(PdfBlock::Break(1));
        },
        FarceElement::FPageBreak => {
            blocks.push(PdfBlock::PageBreak);
        },
    }
    assert(blocks_view(blocks@) =~= b0 + element_blocks(element@));
}

/// The page layout of `fountain_doc` on `paper_size` (see `layout`).
pub fn pdf_layout(fountain_doc: FarceDocument, paper_size: PaperSize) -> (r: PdfLayout)
    ensures
        layout_view(r) == layout(fountain_doc@, paper_size),
{
    let ghost d = fountain_doc@;
    let title = match fountain_doc.get_title() {
        Some(title) => title.clone(),
        None => String::from_str(DEFAULT_TITLE),
    };
    let has_title_page = fountain_doc.has_title_page();
    let mut blocks: Vec<PdfBlock> = Vec::new();
    assert(title@ == layout_title(d));
    if has_title_page {
        let ghost fs = d.title_page.unwrap();
        push_block(&mut blocks, PdfBlock::Break(10));
        push_centered(&mut blocks, &title);
        push_block(&mut blocks, PdfBlock::Break(1));
        let ghost head = blocks_view(blocks@);
        assert(head =~= seq![SBlock::Break(10), centered(layout_title(d)), SBlock::Break(1)]);
        match fountain_doc.get_titlepage_field("Author") {
            Some(author_name) => {
                let credit = match fountain_doc.get_titlepage_field("Credit") {
                    Some(credit) => credit.clone(),
                    None => String::from_str(DEFAULT_CREDIT),
                };
                push_centered(&mut blocks, &credit);
                push_block(&mut blocks, PdfBlock::Break(1));
                push_centered(&mut blocks, author_name);
                assert(blocks_view(blocks@) =~= head + seq![centered(credit@), SBlock::Break(1), centered(author_name@)]);
            },
            None => {},
        }
        push_block(&mut blocks, PdfBlock::PageBreak);
    }
    assert(blocks_view(blocks@) =~= title_blocks(d));
    let ghost els = d.elements;
    let mut k: usize = 0;
    assert(els.take(0) =~= Seq::<SElement>::empty());
    while k < fountain_doc.elements.len()
        invariant
            k <= fountain_doc.elements.len(),
            els == elements_view(fountain_doc.elements@),
            blocks_view(blocks@) == title_blocks(d) + elements_blocks(els.take(k as int)),
        decreases fountain_doc.elements.len() - k,
    {
        push_element_blocks(&mut blocks, &fountain_doc.elements[k]);
        proof {
            let t = els.take(k + 1);
            assert(t.drop_last() =~= els.take(k as int));
            assert(t.last() == fountain_doc.elements@[k as int]@);
        }
        k = k + 1;
    }
    assert(els.take(els.len() as int) =~= els);
    let page_margins = Margins {
        top: inches_exec(500),
        right: inches_exec(800),
        bottom: inches_exec(1000),
        left: inches_exec(1500),
    };
    PdfLayout {
        paper_size,
        title,
        has_title_page,
        font_size: 12,
        line_spacing: 1000,
        minimal_conformance: true,
        page_margins,
        blocks,
    }
}

/// What stands at the top of page `page` (counted from 1): from the third
/// page of a document with a title page, or the second of one without, the
/// page number within the screenplay (the title page not counted) and a
/// full stop, right-aligned, then three blank lines; above that, four
/// blank lines.
pub open spec fn header_for(has_title_page: bool, page: nat) -> Seq<SBlock> {
    let number: Option<nat> = if has_title_page {
        if page > 2 {
            Some((page - 1) as nat)
        } else {
            None
        }
    } else if page > 1 {
        Some(page)
    } else {
        None
    };
    match number {
        Some(n) => seq![
            SBlock::Paragraph {
                spans: one_span(decimal(n) + "."@, plain()),
                alignment: Alignment::Right,
                padding: None,
            },
            SBlock::Break(3),
        ],
        None => seq![SBlock::Break(4)],
    }
}

/// The header of page `page` (see `header_for`), in 10 point.
pub fn page_header(has_title_page: bool, page: usize) -> (r: PageHeader)
    ensures
        blocks_view(r.blocks@) == header_for(has_title_page, page as nat),
        r.font_size == 10,
{
    let number = if has_title_page {
        if page > 2 {
            Some(page - 1)
        } else {
            None
        }
    } else if page > 1 {
        Some(page)
    } else {
        None
    };
    let mut blocks: Vec<PdfBlock> = Vec::new();
    match number {
        Some(n) => {
            let mut label = String::new();
            push_decimal(&mut label, n);
            label.append(".");
            push_block(
                &mut blocks,
                PdfBlock::Paragraph { spans: plain_span(label), alignment: Alignment::Right, padding: None },
            );
            push_block(&mut blocks, PdfBlock::Break(3));
        },
        None => {
            push_block(&mut blocks, PdfBlock::Break(4));
        },
    }
    assert(blocks_view(blocks@) =~= header_for(has_title_page, page as nat));
    PageHeader { blocks, font_size: 10 }
}

} // verus!

verus! {

/// A title page is not counted: with one, page `p + 1` is numbered as page
/// `p` is without one.
pub proof fn lemma_title_page_shifts_numbering(p: nat)
    requires
        p >= 1,
    ensures
        header_for(true, p + 1) == header_for(false, p),
{
}

/// The layout is the title page's blocks followed by each element's blocks
/// in order; splitting the elements splits the blocks.
pub proof fn lemma_elements_blocks_append(a: Seq<SElement>, b: Seq<SElement>)
    ensures
        elements_blocks(a + b) == elements_blocks(a) + elements_blocks(b),
    decreases b.len(),
{
    if b.len() == 0 {
        assert(a + b =~= a);
        assert(elements_blocks(a) + elements_blocks(b) =~= elements_blocks(a));
    } else {
        lemma_elements_blocks_append(a, b.drop_last());
        assert((a + b).drop_last() =~= a + b.drop_last());
        assert(elements_blocks(a + b) =~= elements_blocks(a) + elements_blocks(b));
    }
}

/// A speech and an action are laid out as the styled runs of their text's
/// inline emphasis: the speech indented on both sides, the action without
/// padding, and the runs' texts, one after another, are the text without
/// its emphasis fences.
pub proof fn lemma_emphasis_in_element_blocks(
    centered: bool,
    name: Seq<char>,
    extensions: Seq<Seq<char>>,
    t: Seq<char>,
)
    ensures
        element_blocks(SElement::Dialogue { name, extensions, text: t })[1] == (SBlock::Paragraph {
            spans: render_spans(inline_spec(t, 0, t.len() as int), plain()).0,
            alignment: Alignment::Left,
            padding: Some(speech_padding()),
        }),
        element_blocks(SElement::Action { is_centered: centered, text: t })[0] == (SBlock::Paragraph {
            spans: render_spans(inline_spec(t, 0, t.len() as int), plain()).0,
            alignment: Alignment::Left,
            padding: None,
        }),
        spans_text(render_spans(inline_spec(t, 0, t.len() as int), plain()).0) == exprs_leaves(
            inline_spec(t, 0, t.len() as int),
        ),
{
    lemma_inline_spans_text(t);
}

/// A scene heading is one bold run, `INT. text`, followed by a blank line;
/// a speaker's line is one plain run indented 1.9"; a page break is a page
/// break alone.
pub proof fn lemma_heading_and_name_blocks(
    int_or_ext: Seq<char>,
    heading: Seq<char>,
    name: Seq<char>,
    extensions: Seq<Seq<char>>,
    speech: Seq<char>,
)
    ensures
        element_blocks(SElement::SceneHeading { int_or_ext, text: heading }) == seq![
            SBlock::Paragraph {
                spans: seq![(int_or_ext + ". "@ + heading, TextState { bold: true, italic: false, underline: false })],
                alignment: Alignment::Left,
                padding: None,
            },
            SBlock::Break(1),
        ],
        element_blocks(SElement::Dialogue { name, extensions, text: speech })[0] == (SBlock::Paragraph {
            spans: seq![(character_line(name, extensions), plain())],
            alignment: Alignment::Left,
            padding: Some(Margins { top: 0, right: 0, bottom: 0, left: 48260 }),
        }),
        element_blocks(SElement::Dialogue { name, extensions, text: speech }).len() == 3,
        element_blocks(SElement::Dialogue { name, extensions, text: speech })[2] == SBlock::Break(1),
        element_blocks(SElement::PageBreak) == seq![SBlock::PageBreak],
{
}

} // verus!

