//! Tests for the bounded reader and the rendering of whole runs.

use headr::echo::echo_text;
use headr::head::head_bytes;
use headr::head::head_lines;
use headr::render::render_run;
use headr::render::render_source;
use headr::render::SourceReport;

#[test]
fn line_mode_takes_exactly_n_lines() {
    let data = b"one\ntwo\nthree\n".to_vec();
    assert_eq!(head_lines(&data, 2), b"one\ntwo\n".to_vec());
    assert_eq!(head_lines(&data, 1), b"one\n".to_vec());
    assert_eq!(head_lines(&data, 3), data);
}

#[test]
fn line_mode_keeps_short_sources_whole() {
    let data = b"one\ntwo\n".to_vec();
    assert_eq!(head_lines(&data, 10), data);
    let unterminated = b"one\ntwo".to_vec();
    assert_eq!(head_lines(&unterminated, 10), unterminated);
    assert_eq!(head_lines(&unterminated, 2), unterminated);
    assert_eq!(head_lines(&Vec::new(), 3), Vec::<u8>::new());
}

#[test]
fn line_mode_preserves_terminators_verbatim() {
    let data = b"a\r\nb\r\n".to_vec();
    assert_eq!(head_lines(&data, 1), b"a\r\n".to_vec());
    assert_eq!(head_lines(&data, 0), Vec::<u8>::new());
}

#[test]
fn byte_mode_takes_a_byte_prefix() {
    let data = b"hello\nworld".to_vec();
    assert_eq!(head_bytes(&data, 3), "hel");
    assert_eq!(head_bytes(&data, 100), "hello\nworld");
    assert_eq!(head_bytes(&Vec::new(), 4), "");
}

#[test]
fn byte_mode_decodes_lossily() {
    // "hé" is two bytes for the accented letter; cutting after the first
    // leaves an invalid sequence, which decodes to the replacement marker.
    let data = "hé".as_bytes().to_vec();
    assert_eq!(data.len(), 3);
    assert_eq!(head_bytes(&data, 2), "h\u{FFFD}");
    assert_eq!(head_bytes(&data, 3), "hé");
    let invalid = vec![0xff, 0xfe, b'a'];
    assert_eq!(head_bytes(&invalid, 3), "\u{FFFD}\u{FFFD}a");
}

#[test]
fn echo_joins_with_single_spaces() {
    let tokens = vec![String::from("hello"), String::from("world")];
    assert_eq!(echo_text(&tokens, false), "hello world\n");
    assert_eq!(echo_text(&tokens, true), "hello world");
}

#[test]
fn echo_single_and_empty_token_lists() {
    assert_eq!(echo_text(&vec![String::from("hi")], false), "hi\n");
    assert_eq!(echo_text(&Vec::new(), false), "\n");
    assert_eq!(echo_text(&Vec::new(), true), "");
}

fn ok_source(name: &str, data: &[u8]) -> SourceReport {
    SourceReport { name: String::from(name), outcome: Ok(data.to_vec()) }
}

fn bad_source(name: &str, desc: &str) -> SourceReport {
    SourceReport { name: String::from(name), outcome: Err(String::from(desc)) }
}

#[test]
fn single_source_gets_no_header() {
    let srcs = vec![ok_source("a.txt", b"alpha\nbeta\n")];
    let (out, errs) = render_run(&srcs, 1, None);
    assert_eq!(out, b"alpha\n".to_vec());
    assert!(errs.is_empty());
}

#[test]
fn two_sources_get_headers_separated_by_a_blank_line() {
    let srcs = vec![ok_source("a.txt", b"alpha\n"), ok_source("b.txt", b"beta\n")];
    let (out, errs) = render_run(&srcs, 10, None);
    let expected = b"==> a.txt <==\nalpha\n\n==> b.txt <==\nbeta\n".to_vec();
    assert_eq!(out, expected);
    assert!(errs.is_empty());
}

#[test]
fn byte_mode_run_bounds_each_source() {
    let srcs = vec![ok_source("a.txt", b"alpha\n"), ok_source("b.txt", b"beta\n")];
    let (out, _) = render_run(&srcs, 10, Some(2));
    assert_eq!(out, b"==> a.txt <==\nal\n==> b.txt <==\nbe".to_vec());
}

#[test]
fn failed_source_is_reported_and_skipped() {
    let srcs = vec![
        bad_source("missing.txt", "No such file or directory (os error 2)"),
        ok_source("b.txt", b"beta\n"),
    ];
    let (out, errs) = render_run(&srcs, 10, None);
    assert_eq!(out, b"\n==> b.txt <==\nbeta\n".to_vec());
    assert_eq!(errs, vec![String::from(
        "missing.txt: No such file or directory (os error 2)",
    )]);
}

#[test]
fn render_source_reports_failures() {
    let src = bad_source("gone", "permission denied");
    let (out, err) = render_source(&src, false, true, 10, None);
    assert!(out.is_empty());
    assert_eq!(err.unwrap(), "gone: permission denied");
}
