//! A reader for screenplays written in the Fountain markup language, and
//! writers for what can be made of them: HTML pages, PDF page layouts, and
//! statistics.
pub mod cli;
pub mod constants;
pub mod document;
pub mod html;
pub mod inline_parser;
pub mod parser;
pub mod pdf;
pub mod stats;
pub mod text;
pub mod utils;

use vstd::prelude::*;
use crate::html::{document_html, html_string};
use crate::parser::{fountain, parse_fountain};

verus! {

/// The screenplay written in `input` as a standalone HTML page: the document
/// that `fountain` reads from it, written with header and footer.
pub fn fountain_to_html(input: &str) -> (r: String)
    ensures
        r@ == document_html(fountain(input@).1, true),
{
    match parse_fountain(input) {
        Ok((_remainder, fdoc)) => html_string(&fdoc, true),
        Err(_) => String::new(),
    }
}

} // verus!
