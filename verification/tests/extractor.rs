//! Tests for the content extractor and the record constructors.

use drlogseeker::extract::analyze_content;
use drlogseeker::record::create_error_result;

#[test]
fn plain_value_is_extracted() {
    let content = b"foo\nOfficial DR value: DR12\nbar\n";
    let r = analyze_content("/tmp/a.log", content);
    assert_eq!(r.dr_value, Some(12));
    assert!(r.scanned);
    assert_eq!(r.path, "/tmp/a.log");
    assert_eq!(r.filename, "a.log");
}

#[test]
fn err_sentinel_in_first_position() {
    let r = analyze_content("a.log", b"Official DR value: DRERR\n");
    assert_eq!(r.dr_value, None);
    assert!(r.scanned);
}

#[test]
fn err_sentinel_in_second_position() {
    let r = analyze_content("a.log", b"Official EP/Single DR value: DRERR\n");
    assert_eq!(r.dr_value, None);
    assert!(r.scanned);
}

#[test]
fn err_sentinel_in_third_position() {
    let r = analyze_content("a.log", b"Official DR Value: DRERR\n");
    assert_eq!(r.dr_value, None);
    assert!(r.scanned);
}

#[test]
fn value_in_second_position() {
    let r = analyze_content("a.log", b"Official EP/Single DR value: DR8\n");
    assert_eq!(r.dr_value, Some(8));
}

#[test]
fn value_in_third_position() {
    let r = analyze_content("a.log", b"Official DR Value: DR10\n");
    assert_eq!(r.dr_value, Some(10));
}

#[test]
fn earliest_match_wins() {
    let content = b"Official DR value: DR6\nOfficial DR value: DR13\n";
    let r = analyze_content("a.log", content);
    assert_eq!(r.dr_value, Some(6));
}

#[test]
fn marker_without_token_is_skipped() {
    // The first header is followed by neither digits nor the sentinel, so
    // the later, complete one counts.
    let content = b"Official DR value: DRnope\nOfficial DR value: DR7\n";
    let r = analyze_content("a.log", content);
    assert_eq!(r.dr_value, Some(7));
}

#[test]
fn no_match_yields_no_metric() {
    let r = analyze_content("a.log", b"nothing of interest here\n");
    assert_eq!(r.dr_value, None);
    assert!(r.scanned);
}

#[test]
fn oversized_value_is_an_error() {
    let r = analyze_content("a.log", b"Official DR value: DR300\n");
    assert_eq!(r.dr_value, None);
    assert!(r.scanned);
}

#[test]
fn leading_zeros_parse() {
    let r = analyze_content("a.log", b"Official DR value: DR0007\n");
    assert_eq!(r.dr_value, Some(7));
}

#[test]
fn zero_is_a_value() {
    let r = analyze_content("a.log", b"Official DR value: DR0\n");
    assert_eq!(r.dr_value, Some(0));
}

#[test]
fn largest_value_parses() {
    let r = analyze_content("a.log", b"Official DR value: DR255\n");
    assert_eq!(r.dr_value, Some(255));
}

#[test]
fn invalid_encoding_is_tolerated() {
    // Lenient decoding replaces the invalid prefix but keeps the header.
    let mut content = vec![0xff, 0xfe, b'\n'];
    content.extend_from_slice(b"Official DR value: DR9\n");
    let r = analyze_content("a.log", &content);
    assert_eq!(r.dr_value, Some(9));
}

#[test]
fn empty_content_yields_no_metric() {
    let r = analyze_content("a.log", b"");
    assert_eq!(r.dr_value, None);
    assert!(r.scanned);
}

#[test]
fn unreadable_file_matches_unparseable_content() {
    // An I/O failure and unusable content are the same ERR shape.
    let io = create_error_result("/d/f.log");
    let parse = analyze_content("/d/f.log", b"garbage");
    assert_eq!(io.dr_value, parse.dr_value);
    assert_eq!(io.scanned, parse.scanned);
    assert_eq!(io.path, parse.path);
    assert_eq!(io.filename, parse.filename);
}

#[test]
fn error_result_fields() {
    let r = create_error_result("/x/y/broken.txt");
    assert_eq!(r.dr_value, None);
    assert!(r.scanned);
    assert_eq!(r.filename, "broken.txt");
    assert_eq!(r.path, "/x/y/broken.txt");
}
