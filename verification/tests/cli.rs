use scenewriter::cli::{default_output_filename, output_filename, parse_args, CliError, OutputMode};
use scenewriter::pdf::PaperSize;

fn args(a: &[&str]) -> Vec<String> {
    a.iter().map(|s| s.to_string()).collect()
}

#[test]
fn defaults() {
    let o = parse_args(&args(&["play.fountain"])).unwrap();
    assert_eq!(o.input_filename, "play.fountain");
    assert_eq!(o.output_mode, OutputMode::Pdf);
    assert_eq!(o.paper_size, PaperSize::A4);
    assert!(o.output_filename.is_none());
}

#[test]
fn options() {
    let o = parse_args(&args(&["--html", "-l", "-o", "a.html", "--output", "b.html", "x.fountain"])).unwrap();
    assert_eq!(o.output_mode, OutputMode::Html);
    assert_eq!(o.paper_size, PaperSize::Letter);
    assert_eq!(o.output_filename.unwrap(), "b.html");
    assert_eq!(o.input_filename, "x.fountain");
}

#[test]
fn errors() {
    assert!(matches!(parse_args(&args(&["--help", "x"])), Err(CliError::Usage)));
    match parse_args(&args(&["x", "-o"])) {
        Err(CliError::MissingValue(a)) => assert_eq!(a, "-o"),
        _ => panic!(),
    }
    match parse_args(&args(&["-z"])) {
        Err(CliError::UnrecognizedArgument(a)) => assert_eq!(a, "-z"),
        _ => panic!(),
    }
    assert!(matches!(parse_args(&args(&[])), Err(CliError::NoInputFile)));
    assert!(matches!(parse_args(&args(&["a", "b"])), Err(CliError::TooManyInputs)));
    assert!(matches!(parse_args(&args(&["--pdf", "--stats", "a"])), Err(CliError::ConflictingOutputModes)));
    assert!(matches!(parse_args(&args(&["--a4", "-a", "a"])), Err(CliError::ConflictingPaperSizes)));
}

#[test]
fn suffixes_and_labels() {
    assert_eq!(OutputMode::Html.get_suffix().unwrap(), "html");
    assert_eq!(OutputMode::Pdf.get_suffix().unwrap(), "pdf");
    assert!(OutputMode::Stats.get_suffix().is_none());
    assert_eq!(OutputMode::Stats.label(), "Show stats");
    assert_eq!(default_output_filename("play", OutputMode::Pdf).unwrap(), "play.pdf");
    assert!(default_output_filename("play", OutputMode::Stats).is_none());
}

#[test]
fn output_filename_from_input_stem() {
    assert_eq!(
        output_filename(OutputMode::Pdf, None, "dir/my_play.fountain"),
        Some(Some("my_play.pdf".to_string()))
    );
    assert_eq!(
        output_filename(OutputMode::Html, None, "my.play.fountain"),
        Some(Some("my.play.html".to_string()))
    );
}

#[test]
fn output_filename_requested_and_stats() {
    assert_eq!(
        output_filename(OutputMode::Html, Some("out.htm".to_string()), "a.fountain"),
        Some(Some("out.htm".to_string()))
    );
    assert_eq!(output_filename(OutputMode::Stats, None, "a.fountain"), Some(None));
}

#[test]
fn output_filename_without_stem() {
    assert_eq!(output_filename(OutputMode::Pdf, None, ".."), None);
}
