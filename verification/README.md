# scenewriter

A reader for screenplays written in the [Fountain](https://fountain.io/)
markup language, verified with Verus, and a command line program around it
that writes a screenplay as a PDF in the standard screenplay format, as an
HTML page, or prints statistics about it.

## Layout

- `src/` — the verified library.
  - `parser.rs` — the Fountain grammar (title page fields, scene headings,
    dialogue, actions, centered actions, page breaks), stated as spec
    functions over characters and positions, with the parsers proved to
    follow it.
  - `inline_parser.rs` — `*italic*`, `**bold**`, `***bold italic***` and
    `_underline_` inside a line, and their HTML.
  - `document.rs` — the document types, their mathematical values, and what
    is read off them (speaker lines, word counts, glyph sets, HTML per
    element).
  - `html.rs` — a whole document as an HTML page.
  - `pdf.rs` — the page layout of a document: styled runs, indentation,
    title page, page headers.
  - `stats.rs` — per-speaker statistics, document counts, the report.
  - `cli.rs` — the command line options.
  - `text.rs`, `utils.rs`, `constants.rs` — shared building blocks.
- `tests/` — tests run against the compiled library.
- `app/` — the `scenewriter` program: argument and file handling, PDF
  rendering with `genpdf`, printing.

The PDF renderer loads the Courier Prime fonts at run time from
`fonts/truetype/Courier Prime/`.
