//! The command line: which output to write, on which paper, from which file
//! to which.
use vstd::prelude::*;
use crate::document::strings_view;
use crate::pdf::PaperSize;
use crate::text::chars_of;

verus! {

/// What the program writes.
#[derive(Copy, Clone, Debug, PartialEq, Eq)]
pub enum OutputMode {
    Html,
    Pdf,
    Stats,
}

impl OutputMode {
    /// The file name extension of the output, if the output is a file.
    pub fn get_suffix(&self) -> (r: Option<String>)
        ensures
            match self {
                OutputMode::Html => r matches Some(s) && s@ == "html"@,
                OutputMode::Pdf => r matches Some(s) && s@ == "pdf"@,
                OutputMode::Stats => r is None,
            },
    {
        match self {
            OutputMode::Html => Some(String::from_str("html")),
            OutputMode::Pdf => Some(String::from_str("pdf")),
            OutputMode::Stats => None,
        }
    }

    /// What the mode does, as shown to a user.
    pub fn label(&self) -> (r: String)
        ensures
            r@ == match self {
                OutputMode::Html => "Write HTML file"@,
                OutputMode::Pdf => "Write PDF file"@,
                OutputMode::Stats => "Show stats"@,
            },
    {
        match self {
            OutputMode::Html => String::from_str("Write HTML file"),
            OutputMode::Pdf => String::from_str("Write PDF file"),
            OutputMode::Stats => String::from_str("Show stats"),
        }
    }
}

/// The output file named after the input: `stem.suffix` for the modes that
/// write a file.
pub fn default_output_filename(file_stem: &str, mode: OutputMode) -> (r: Option<String>)
    ensures
        match mode {
            OutputMode::Html => r matches Some(s) && s@ == file_stem@ + "."@ + "html"@,
            OutputMode::Pdf => r matches Some(s) && s@ == file_stem@ + "."@ + "pdf"@,
            OutputMode::Stats => r is None,
        },
{
    match mode.get_suffix() {
        Some(suffix) => {
            let mut s = String::from_str(file_stem);
            s.append(".");
            s.append(suffix.as_str());
            Some(s)
        },
        None => None,
    }
}

/// What the command line asks for.
#[derive(Debug)]
pub struct CliOptions {
    pub input_filename: String,
    pub output_filename: Option<String>,
    pub output_mode: OutputMode,
    pub paper_size: PaperSize,
}

/// Why the command line cannot be followed.
#[derive(Debug)]
pub enum CliError {
    /// `--help`: show the usage.
    Usage,
    /// `--output` or `-o` (the argument) came last, with no file name.
    MissingValue(String),
    /// An argument starting with `-` that is no option.
    UnrecognizedArgument(String),
    /// No input file was named.
    NoInputFile,
    /// More than one input file was named.
    TooManyInputs,
    /// More than one of `--pdf`, `--html` and `--stats`.
    ConflictingOutputModes,
    /// More than one paper size.
    ConflictingPaperSizes,
}

/// The mathematical value of a [`CliError`].
pub enum SCliError {
    Usage,
    MissingValue(Seq<char>),
    UnrecognizedArgument(Seq<char>),
    NoInputFile,
    TooManyInputs,
    ConflictingOutputModes,
    ConflictingPaperSizes,
}

pub open spec fn cli_error_view(e: CliError) -> SCliError {
    match e {
        CliError::Usage => SCliError::Usage,
        CliError::MissingValue(a) => SCliError::MissingValue(a@),
        CliError::UnrecognizedArgument(a) => SCliError::UnrecognizedArgument(a@),
        CliError::NoInputFile => SCliError::NoInputFile,
        CliError::TooManyInputs => SCliError::TooManyInputs,
        CliError::ConflictingOutputModes => SCliError::ConflictingOutputModes,
        CliError::ConflictingPaperSizes => SCliError::ConflictingPaperSizes,
    }
}

/// What the arguments read so far ask for.
#[verifier::ext_equal]
pub struct ArgState {
    pub modes: Seq<OutputMode>,
    pub sizes: Seq<PaperSize>,
    pub output: Option<Seq<char>>,
    pub positional: Seq<Seq<char>>,
}

/// The mathematical value of [`CliOptions`].
pub struct SCliOptions {
    pub input_filename: Seq<char>,
    pub output_filename: Option<Seq<char>>,
    pub output_mode: OutputMode,
    pub paper_size: PaperSize,
}

/// Reading the arguments from `i` on: each option is recorded (a later
/// `--output` replaces an earlier one), `--help`, a missing file name after
/// `--output` and an unknown option stop the reading; anything else is an
/// input file name.
pub open spec fn read_args(args: Seq<Seq<char>>, i: int, st: ArgState) -> Result<ArgState, SCliError>
    decreases args.len() - i,
{
    if i < 0 || i >= args.len() {
        Ok(st)
    } else {
        let a = args[i];
        if a == "--pdf"@ {
            read_args(args, i + 1, ArgState { modes: st.modes.push(OutputMode::Pdf), ..st })
        } else if a == "--html"@ {
            read_args(args, i + 1, ArgState { modes: st.modes.push(OutputMode::Html), ..st })
        } else if a == "--stats"@ {
            read_args(args, i + 1, ArgState { modes: st.modes.push(OutputMode::Stats), ..st })
        } else if a == "--output"@ || a == "-o"@ {
            if i + 1 < args.len() {
                read_args(args, i + 2, ArgState { output: Some(args[i + 1]), ..st })
            } else {
                Err(SCliError::MissingValue(a))
            }
        } else if a == "--a4"@ || a == "-a"@ {
            read_args(args, i + 1, ArgState { sizes: st.sizes.push(PaperSize::A4), ..st })
        } else if a == "--letter"@ || a == "-l"@ {
            read_args(args, i + 1, ArgState { sizes: st.sizes.push(PaperSize::Letter), ..st })
        } else if a == "--help"@ {
            Err(SCliError::Usage)
        } else if a.len() > 0 && a[0] == '-' {
            Err(SCliError::UnrecognizedArgument(a))
        } else {
            read_args(args, i + 1, ArgState { positional: st.positional.push(a), ..st })
        }
    }
}

/// What the command line (without the program name) asks for: exactly one
/// input file, at most one output mode (PDF by default) and at most one
/// paper size (A4 by default), checked in that order.
pub open spec fn cli(args: Seq<Seq<char>>) -> Result<SCliOptions, SCliError> {
    match read_args(
        args,
        0,
        ArgState { modes: Seq::empty(), sizes: Seq::empty(), output: None, positional: Seq::empty() },
    ) {
        Err(e) => Err(e),
        Ok(st) => if st.positional.len() == 0 {
            Err(SCliError::NoInputFile)
        } else if st.positional.len() > 1 {
            Err(SCliError::TooManyInputs)
        } else if st.modes.len() > 1 {
            Err(SCliError::ConflictingOutputModes)
        } else if st.sizes.len() > 1 {
            Err(SCliError::ConflictingPaperSizes)
        } else {
            Ok(
                SCliOptions {
                    input_filename: st.positional[0],
                    output_filename: st.output,
                    output_mode: if st.modes.len() == 0 {
                        OutputMode::Pdf
                    } else {
                        st.modes[0]
                    },
                    paper_size: if st.sizes.len() == 0 {
                        PaperSize::A4
                    } else {
                        st.sizes[0]
                    },
                },
            )
        },
    }
}

pub open spec fn opt_view(o: Option<String>) -> Option<Seq<char>> {
    match o {
        Some(f) => Some(f@),
        None => None,
    }
}

fn is_arg(a: &String, lit: &str) -> (r: bool)
    ensures
        r == (a@ == lit@),
{
    let l = String::from_str(lit);
    *a == l
}

fn starts_with_dash(a: &String) -> (r: bool)
    ensures
        r == (a@.len() > 0 && a@[0] == '-'),
{
    let v = chars_of(a.as_str());
    v.len() > 0 && v[0] == '-'
}

/// The options that `args` (without the program name) ask for (see `cli`).
pub fn parse_args(args: &Vec<String>) -> (r: Result<CliOptions, CliError>)
    ensures
        match cli(strings_view(args@)) {
            Ok(o) => r matches Ok(opts) && opts.input_filename@ == o.input_filename
                && match opts.output_filename {
                Some(f) => o.output_filename == Some(f@),
                None => o.output_filename is None,
            } && opts.output_mode == o.output_mode && opts.paper_size == o.paper_size,
            Err(e) => r matches Err(err) && cli_error_view(err) == e,
        },
{
    let ghost av = strings_view(args@);
    let ghost init = ArgState {
        modes: Seq::empty(),
        sizes: Seq::empty(),
        output: None,
        positional: Seq::empty(),
    };
    let mut modes: Vec<OutputMode> = Vec::new();
    let mut sizes: Vec<PaperSize> = Vec::new();
    let mut output: Option<String> = None;
    let mut positional: Vec<String> = Vec::new();
    let mut i: usize = 0;
    assert(init =~= ArgState {
        modes: modes@,
        sizes: sizes@,
        output: None,
        positional: strings_view(positional@),
    });
    while i < args.len()
        invariant
            i <= args.len(),
            av == strings_view(args@),
            init == (ArgState {
                modes: Seq::<OutputMode>::empty(),
                sizes: Seq::<PaperSize>::empty(),
                output: None,
                positional: Seq::<Seq<char>>::empty(),
            }),
            read_args(av, 0, init) == read_args(
                av,
                i as int,
                ArgState {
                    modes: modes@,
                    sizes: sizes@,
                    output: opt_view(output),
                    positional: strings_view(positional@),
                },
            ),
        decreases args.len() - i,
    {
        let a = &args[i];
        assert(av[i as int] == a@);
        let ghost p0 = strings_view(positional@);
        if is_arg(a, "--pdf") {
            modes.push(OutputMode::Pdf);
        } else if is_arg(a, "--html") {
            modes.push(OutputMode::Html);
        } else if is_arg(a, "--stats") {
            modes.push(OutputMode::Stats);
        } else if is_arg(a, "--output") || is_arg(a, "-o") {
            if i + 1 < args.len() {
                output = Some(args[i + 1].clone());
                i = i + 1;
            } else {
                return Err(CliError::MissingValue(a.clone()));
            }
        } else if is_arg(a, "--a4") || is_arg(a, "-a") {
            sizes.push(PaperSize::A4);
        } else if is_arg(a, "--letter") || is_arg(a, "-l") {
            sizes.push(PaperSize::Letter);
        } else if is_arg(a, "--help") {
            return Err(CliError::Usage);
        } else if starts_with_dash(a) {
            return Err(CliError::UnrecognizedArgument(a.clone()));
        } else {
            positional.push(a.clone());
            assert(strings_view(positional@) =~= p0.push(a@));
        }
        i = i + 1;
    }
    if positional.len() == 0 {
        return Err(CliError::NoInputFile);
    }
    if positional.len() > 1 {
        return Err(CliError::TooManyInputs);
    }
    if modes.len() > 1 {
        return Err(CliError::ConflictingOutputModes);
    }
    if sizes.len() > 1 {
        return Err(CliError::ConflictingPaperSizes);
    }
    let output_mode = if modes.len() == 0 {
        OutputMode::Pdf
    } else {
        modes[0]
    };
    let paper_size = if sizes.len() == 0 {
        PaperSize::A4
    } else {
        sizes[0]
    };
    Ok(
        CliOptions {
            input_filename: positional[0].clone(),
            output_filename: output,
            output_mode,
            paper_size,
        },
    )
}

} // verus!

verus! {

/// The file stem of the path `path`, as `std::path::Path::file_stem` finds
/// it: the final component's name without its last extension.
pub uninterp spec fn file_stem_of(path: Seq<char>) -> Option<Seq<char>>;

/// Calls `std::path::Path::file_stem` on `path` and hands back the stem as a
/// `String`. Trusted: the result is the one `file_stem_of` names for the
/// path; which stem std finds (how it splits components and extensions) is
/// not stated here. A stem taken from a `&str` is always valid UTF-8, so the
/// conversion back to `String` loses nothing.
#[verifier::external_body]
fn file_stem(path: &str) -> (r: Option<String>)
    ensures
        opt_view(r) == file_stem_of(path@),
{
    match std::path::Path::new(path).file_stem() {
        Some(stem) => stem.to_str().map(String::from),
        None => None,
    }
}

/// The file to write: the one asked for with `-o`, else one named after the
/// input's file stem (see `default_output_filename`); none for the
/// statistics, which are printed. `None` where a name must be made and the
/// input path has no file stem.
pub fn output_filename(mode: OutputMode, requested: Option<String>, input_filename: &str) -> (r:
    Option<Option<String>>)
    ensures
        match mode {
            OutputMode::Stats => r matches Some(o) && o is None,
            _ => match requested {
                Some(f) => r matches Some(Some(s)) && s@ == f@,
                None => match file_stem_of(input_filename@) {
                    Some(stem) => r matches Some(Some(s)) && s@ == stem + "."@ + (
                    if mode is Html {
                        "html"@
                    } else {
                        "pdf"@
                    }),
                    None => r is None,
                },
            },
        },
{
    match mode {
        OutputMode::Stats => Some(None),
        _ => match requested {
            Some(f) => Some(Some(f)),
            None => match file_stem(input_filename) {
                Some(stem) => Some(default_output_filename(stem.as_str(), mode)),
                None => None,
            },
        },
    }
}

} // verus!

verus! {

/// The options for input file `f`, output `out`, mode `mode` and paper `size`.
pub open spec fn options(f: Seq<char>, out: Option<Seq<char>>, mode: OutputMode, size: PaperSize) -> SCliOptions {
    SCliOptions { input_filename: f, output_filename: out, output_mode: mode, paper_size: size }
}

/// Whether `f` can name an input file: it does not start with `-`.
pub open spec fn plain_arg(f: Seq<char>) -> bool {
    !(f.len() > 0 && f[0] == '-')
}

proof fn lemma_option_literals()
    ensures
        "--pdf"@ =~= seq!['-', '-', 'p', 'd', 'f'],
        "--html"@ =~= seq!['-', '-', 'h', 't', 'm', 'l'],
        "--stats"@ =~= seq!['-', '-', 's', 't', 'a', 't', 's'],
        "--output"@ =~= seq!['-', '-', 'o', 'u', 't', 'p', 'u', 't'],
        "-o"@ =~= seq!['-', 'o'],
        "--a4"@ =~= seq!['-', '-', 'a', '4'],
        "-a"@ =~= seq!['-', 'a'],
        "--letter"@ =~= seq!['-', '-', 'l', 'e', 't', 't', 'e', 'r'],
        "-l"@ =~= seq!['-', 'l'],
        "--help"@ =~= seq!['-', '-', 'h', 'e', 'l', 'p'],
{
    reveal_strlit("--pdf");
    reveal_strlit("--html");
    reveal_strlit("--stats");
    reveal_strlit("--output");
    reveal_strlit("-o");
    reveal_strlit("--a4");
    reveal_strlit("-a");
    reveal_strlit("--letter");
    reveal_strlit("-l");
    reveal_strlit("--help");
}

/// A lone input file is read with the defaults: PDF on A4, no output file
/// named.
pub proof fn lemma_cli_defaults(f: Seq<char>)
    requires
        plain_arg(f),
    ensures
        cli(seq![f]) == Ok::<SCliOptions, SCliError>(options(f, None, OutputMode::Pdf, PaperSize::A4)),
{
    lemma_option_literals();
    reveal_with_fuel(read_args, 2);
}

/// `--letter` and `-l` ask for Letter paper, `--a4` and `-a` for A4, before
/// or after the input file; the other settings keep their defaults.
pub proof fn lemma_cli_paper_size(opt: Seq<char>, f: Seq<char>)
    requires
        plain_arg(f),
    ensures
        (opt == "--letter"@ || opt == "-l"@) ==> cli(seq![opt, f]) == Ok::<SCliOptions, SCliError>(
            options(f, None, OutputMode::Pdf, PaperSize::Letter),
        ) && cli(seq![f, opt]) == Ok::<SCliOptions, SCliError>(
            options(f, None, OutputMode::Pdf, PaperSize::Letter),
        ),
        (opt == "--a4"@ || opt == "-a"@) ==> cli(seq![opt, f]) == Ok::<SCliOptions, SCliError>(
            options(f, None, OutputMode::Pdf, PaperSize::A4),
        ) && cli(seq![f, opt]) == Ok::<SCliOptions, SCliError>(
            options(f, None, OutputMode::Pdf, PaperSize::A4),
        ),
{
    lemma_option_literals();
    reveal_with_fuel(read_args, 3);
}

/// `--pdf`, `--html` and `--stats` choose the output mode, before or after
/// the input file; the paper stays A4.
pub proof fn lemma_cli_output_mode(opt: Seq<char>, f: Seq<char>)
    requires
        plain_arg(f),
    ensures
        opt == "--pdf"@ ==> cli(seq![opt, f]) == Ok::<SCliOptions, SCliError>(
            options(f, None, OutputMode::Pdf, PaperSize::A4),
        ) && cli(seq![f, opt]) == Ok::<SCliOptions, SCliError>(
            options(f, None, OutputMode::Pdf, PaperSize::A4),
        ),
        opt == "--html"@ ==> cli(seq![opt, f]) == Ok::<SCliOptions, SCliError>(
            options(f, None, OutputMode::Html, PaperSize::A4),
        ) && cli(seq![f, opt]) == Ok::<SCliOptions, SCliError>(
            options(f, None, OutputMode::Html, PaperSize::A4),
        ),
        opt == "--stats"@ ==> cli(seq![opt, f]) == Ok::<SCliOptions, SCliError>(
            options(f, None, OutputMode::Stats, PaperSize::A4),
        ) && cli(seq![f, opt]) == Ok::<SCliOptions, SCliError>(
            options(f, None, OutputMode::Stats, PaperSize::A4),
        ),
{
    lemma_option_literals();
    reveal_with_fuel(read_args, 3);
}

/// `--output` and `-o` take the next argument, whatever it is, as the output
/// file, before or after the input file.
pub proof fn lemma_cli_output_file(opt: Seq<char>, out: Seq<char>, f: Seq<char>)
    requires
        plain_arg(f),
        opt == "--output"@ || opt == "-o"@,
    ensures
        cli(seq![opt, out, f]) == Ok::<SCliOptions, SCliError>(
            options(f, Some(out), OutputMode::Pdf, PaperSize::A4),
        ),
        cli(seq![f, opt, out]) == Ok::<SCliOptions, SCliError>(
            options(f, Some(out), OutputMode::Pdf, PaperSize::A4),
        ),
{
    lemma_option_literals();
    reveal_with_fuel(read_args, 3);
}

/// `--help` asks for the usage, whatever follows it.
pub proof fn lemma_cli_help(rest: Seq<Seq<char>>)
    ensures
        cli(seq!["--help"@] + rest) == Err::<SCliOptions, SCliError>(SCliError::Usage),
{
    lemma_option_literals();
    assert((seq!["--help"@] + rest)[0] == "--help"@);
}

/// What cannot be followed is refused: no input file, two input files, two
/// output modes, two paper sizes, an output option with no file after it,
/// and an unknown option.
pub proof fn lemma_cli_refusals(f: Seq<char>, g: Seq<char>, opt: Seq<char>)
    requires
        plain_arg(f),
        plain_arg(g),
    ensures
        cli(Seq::empty()) == Err::<SCliOptions, SCliError>(SCliError::NoInputFile),
        cli(seq![f, g]) == Err::<SCliOptions, SCliError>(SCliError::TooManyInputs),
        cli(seq!["--pdf"@, "--html"@, f]) == Err::<SCliOptions, SCliError>(
            SCliError::ConflictingOutputModes,
        ),
        cli(seq!["--a4"@, "--letter"@, f]) == Err::<SCliOptions, SCliError>(
            SCliError::ConflictingPaperSizes,
        ),
        (opt == "--output"@ || opt == "-o"@) ==> cli(seq![f, opt]) == Err::<SCliOptions, SCliError>(
            SCliError::MissingValue(opt),
        ),
        (opt.len() > 0 && opt[0] == '-' && opt != "--pdf"@ && opt != "--html"@ && opt != "--stats"@
            && opt != "--output"@ && opt != "-o"@ && opt != "--a4"@ && opt != "-a"@ && opt
            != "--letter"@ && opt != "-l"@ && opt != "--help"@) ==> cli(seq![opt, f]) == Err::<
            SCliOptions,
            SCliError,
        >(SCliError::UnrecognizedArgument(opt)),
{
    lemma_option_literals();
    reveal_with_fuel(read_args, 4);
}

} // verus!

