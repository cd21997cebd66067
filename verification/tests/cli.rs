use rangedl::args::Args;
use rangedl::errors::DownloadError;
use rangedl::fetch::{content_length_total, range_header_value};
use rangedl::naming::resolve_output;
use rangedl::numbers::{parse_u64, u64_to_string};
use rangedl::plan::WorkerRange;

fn tokens(parts: &[&str]) -> Vec<String> {
    parts.iter().map(|s| s.to_string()).collect()
}

#[test]
fn filename_inferred_from_last_segment() {
    let r = resolve_output("https://example.com/dir/archive.tar.gz", None);
    assert_eq!(r, Ok("archive.tar.gz".to_string()));
}

#[test]
fn filename_inference_fails_without_segment() {
    let r = resolve_output("https://example.com/", None);
    assert_eq!(r, Err(DownloadError::NoFilenameInferred));
}

#[test]
fn filename_inference_fails_on_invalid_url() {
    let r = resolve_output("not a url", None);
    assert_eq!(r, Err(DownloadError::NoFilenameInferred));
}

#[test]
fn explicit_output_wins() {
    let r = resolve_output("https://example.com/dir/archive.tar.gz", Some("chosen.bin".to_string()));
    assert_eq!(r, Ok("chosen.bin".to_string()));
}

#[test]
fn range_header_is_exact() {
    let r = WorkerRange { index: 0, start: 0, end: 99 };
    assert_eq!(range_header_value(&r), "bytes=0-99");
    let r = WorkerRange { index: 1, start: 25, end: 49 };
    assert_eq!(range_header_value(&r), "bytes=25-49");
}

#[test]
fn content_length_parsed() {
    assert_eq!(content_length_total(Some("1024")), Ok(1024));
    assert_eq!(content_length_total(Some("0")), Ok(0));
    assert_eq!(content_length_total(None), Err(DownloadError::SizeUnavailable));
    assert_eq!(content_length_total(Some("")), Err(DownloadError::ParseError));
    assert_eq!(content_length_total(Some("12a4")), Err(DownloadError::ParseError));
    assert_eq!(
        content_length_total(Some("18446744073709551616")),
        Err(DownloadError::ParseError)
    );
}

#[test]
fn decimal_rendering() {
    assert_eq!(u64_to_string(0), "0");
    assert_eq!(u64_to_string(7), "7");
    assert_eq!(u64_to_string(1234567890), "1234567890");
    assert_eq!(u64_to_string(u64::MAX), "18446744073709551615");
}

#[test]
fn decimal_parsing() {
    assert_eq!(parse_u64("0"), Some(0));
    assert_eq!(parse_u64("007"), Some(7));
    assert_eq!(parse_u64("18446744073709551615"), Some(u64::MAX));
    assert_eq!(parse_u64("18446744073709551616"), None);
    assert_eq!(parse_u64(""), None);
    assert_eq!(parse_u64("-3"), None);
    assert_eq!(parse_u64("1 2"), None);
}

#[test]
fn parse_args_accepts_all_flags() {
    let argv = tokens(&["-u", "https://example.com/f.bin", "-t", "8", "-o", "out.bin"]);
    let args = Args::parse_args(&argv).unwrap();
    assert_eq!(args.url, "https://example.com/f.bin");
    assert_eq!(args.thread, 8);
    assert_eq!(args.output, Some("out.bin".to_string()));
}

#[test]
fn parse_args_accepts_long_flags() {
    let argv = tokens(&["--url", "https://example.com/f", "--thread", "2", "--output", "x"]);
    let args = Args::parse_args(&argv).unwrap();
    assert_eq!(args.url, "https://example.com/f");
    assert_eq!(args.thread, 2);
    assert_eq!(args.output, Some("x".to_string()));
}

#[test]
fn parse_args_defaults() {
    let argv = tokens(&["-u", "https://example.com/f"]);
    let args = Args::parse_args(&argv).unwrap();
    assert_eq!(args.thread, 4);
    assert_eq!(args.output, None);
}

#[test]
fn parse_args_requires_url() {
    assert!(Args::parse_args(&tokens(&["-t", "8"])).is_none());
    assert!(Args::parse_args(&tokens(&[])).is_none());
}

#[test]
fn parse_args_rejects_bad_input() {
    assert!(Args::parse_args(&tokens(&["-u", "https://e.com/f", "-t", "0"])).is_none());
    assert!(Args::parse_args(&tokens(&["-u", "https://e.com/f", "-t", "many"])).is_none());
    assert!(Args::parse_args(&tokens(&["-u", "https://e.com/f", "-x", "y"])).is_none());
    assert!(Args::parse_args(&tokens(&["-u"])).is_none());
}

#[test]
fn parse_args_later_flag_wins() {
    let argv = tokens(&["-u", "https://a/1", "--url", "https://b/2"]);
    let args = Args::parse_args(&argv).unwrap();
    assert_eq!(args.url, "https://b/2");
}

#[test]
fn error_messages_name_the_failure() {
    assert_eq!(
        DownloadError::SizeUnavailable.message(),
        "could not determine the size of the remote resource"
    );
    assert_eq!(
        DownloadError::NoFilenameInferred.message(),
        "no output file name given and none could be derived from the URL"
    );
    assert_eq!(DownloadError::NetworkError.message(), "network request failed");
    assert_eq!(DownloadError::IoError.message(), "local file operation failed");
    assert_eq!(DownloadError::ParseError.message(), "malformed numeric header");
}
