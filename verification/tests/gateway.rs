//! The CGI response parser and the response translator, end to end on
//! concrete backend output.

use crate_proxy::response::{parse, parse_header_line, HeaderLine, ParseError};
use crate_proxy::translate::{parse_u64, status_of, translate, TranslateError};

#[test]
fn well_formed_block_parses() {
    let input = b"Content-Type: text/html\nX-Custom-Header:   spaced  out \nStatus: 404 Not Found\n\nbody bytes";
    let mut resp = parse(input).expect("well-formed block");
    assert_eq!(
        resp.header().get(b"content-type").map(|v| v.as_slice()),
        Some(b"text/html".as_slice())
    );
    // the first space run after the colon is skipped; internal
    // whitespace stays; trailing whitespace is stripped
    assert_eq!(
        resp.header().get(b"x-custom-header").map(|v| v.as_slice()),
        Some(b"spaced  out".as_slice())
    );
    assert_eq!(
        resp.header().get(b"status").map(|v| v.as_slice()),
        Some(b"404 Not Found".as_slice())
    );
    // the body starts exactly after the blank line
    assert_eq!(resp.body().as_slice(), b"body bytes");
}

#[test]
fn keys_are_case_folded() {
    let input = b"CONTENT-LENGTH: 10\n\n0123456789";
    let mut resp = parse(input).expect("block");
    assert_eq!(
        resp.header().get(b"content-length").map(|v| v.as_slice()),
        Some(b"10".as_slice())
    );
    assert!(resp.header().get(b"CONTENT-LENGTH").is_none());
    assert_eq!(resp.body().as_slice(), b"0123456789");
}

#[test]
fn crlf_lines_parse() {
    let input = b"Status: 301 Moved\r\nLocation: /elsewhere\r\n\r\nrest";
    let mut resp = parse(input).expect("block");
    assert_eq!(
        resp.header().get(b"status").map(|v| v.as_slice()),
        Some(b"301 Moved".as_slice())
    );
    assert_eq!(
        resp.header().get(b"location").map(|v| v.as_slice()),
        Some(b"/elsewhere".as_slice())
    );
    assert_eq!(resp.body().as_slice(), b"rest");
}

#[test]
fn duplicate_names_overwrite() {
    let input = b"X-Tag: first\nX-Tag: second\n\n";
    let mut resp = parse(input).expect("block");
    assert_eq!(
        resp.header().get(b"x-tag").map(|v| v.as_slice()),
        Some(b"second".as_slice())
    );
    assert_eq!(resp.body().as_slice(), b"");
}

#[test]
fn stream_ending_without_blank_line() {
    // the end of the stream terminates the header block; the body is
    // empty
    let input = b"Content-Type: text/plain";
    let mut resp = parse(input).expect("block");
    assert_eq!(
        resp.header().get(b"content-type").map(|v| v.as_slice()),
        Some(b"text/plain".as_slice())
    );
    assert_eq!(resp.body().as_slice(), b"");
}

#[test]
fn empty_value_is_kept() {
    let input = b"X-Empty:\n\nbody";
    let mut resp = parse(input).expect("block");
    assert_eq!(
        resp.header().get(b"x-empty").map(|v| v.as_slice()),
        Some(b"".as_slice())
    );
    assert_eq!(resp.body().as_slice(), b"body");
}

#[test]
fn malformed_line_is_fatal() {
    assert_eq!(
        parse(b"no colon here\n\nbody").unwrap_err(),
        ParseError::MalformedHeaderLine
    );
    // a digit in the name breaks the grammar
    assert_eq!(
        parse(b"X-2: v\n\n").unwrap_err(),
        ParseError::MalformedHeaderLine
    );
    // an empty name breaks the grammar
    assert_eq!(
        parse(b": value\n\n").unwrap_err(),
        ParseError::MalformedHeaderLine
    );
}

#[test]
fn header_lines_one_at_a_time() {
    match parse_header_line(b"Content-Type: text/plain\n") {
        Ok(HeaderLine::Field(k, v)) => {
            assert_eq!(k, b"content-type".to_vec());
            assert_eq!(v, b"text/plain".to_vec());
        }
        other => panic!("unexpected outcome: {:?}", other.is_ok()),
    }
    assert!(matches!(parse_header_line(b"\r\n"), Ok(HeaderLine::Blank)));
    assert!(matches!(parse_header_line(b"\n"), Ok(HeaderLine::Blank)));
    assert!(parse_header_line(b"broken line\n").is_err());
}

#[test]
fn status_line_maps_to_code() {
    let mut resp = parse(b"Status: 404 Not Found\n\n").expect("block");
    let d = translate(&resp).expect("translation");
    assert_eq!(d.status, 404);
    assert_eq!(resp.body().as_slice(), b"");
}

#[test]
fn absent_or_garbled_status_defaults_to_200() {
    let resp = parse(b"Content-Type: text/plain\n\n").expect("block");
    assert_eq!(translate(&resp).expect("translation").status, 200);

    let resp = parse(b"Status: I am fine\n\n").expect("block");
    assert_eq!(translate(&resp).expect("translation").status, 200);

    let resp = parse(b"Status:\n\n").expect("block");
    assert_eq!(translate(&resp).expect("translation").status, 200);

    // a code too large for an HTTP status falls back too
    let resp = parse(b"Status: 70000 Out Of Range\n\n").expect("block");
    assert_eq!(translate(&resp).expect("translation").status, 200);
}

#[test]
fn content_length_propagates_when_numeric() {
    let resp = parse(b"content-length: 1234\n\n").expect("block");
    assert_eq!(translate(&resp).expect("translation").content_length, Some(1234));
}

#[test]
fn unparsable_content_length_is_unspecified_not_an_error() {
    let resp = parse(b"content-length: abc\n\n").expect("block");
    let d = translate(&resp).expect("translation");
    assert_eq!(d.content_length, None);
    assert_eq!(d.status, 200);
}

#[test]
fn valid_content_type_is_forwarded() {
    let resp = parse(b"Content-Type: text/html; charset=utf-8\n\n").expect("block");
    let d = translate(&resp).expect("translation");
    assert_eq!(
        d.content_type.as_deref(),
        Some(b"text/html; charset=utf-8".as_slice())
    );
}

#[test]
fn invalid_content_type_is_fatal() {
    // the mime parser would hand back an unchanged "notamime" if it
    // were a pass-through; it must reject a type without a slash
    let resp = parse(b"Content-Type: notamime\n\n").expect("block");
    assert_eq!(
        translate(&resp).unwrap_err(),
        TranslateError::InvalidContentType
    );
}

#[test]
fn absent_content_type_is_no_error() {
    let resp = parse(b"X-Other: v\n\n").expect("block");
    let d = translate(&resp).expect("translation");
    assert_eq!(d.content_type, None);
}

#[test]
fn numeric_readings() {
    assert_eq!(parse_u64(b"0"), Some(0));
    assert_eq!(parse_u64(b"1234"), Some(1234));
    assert_eq!(parse_u64(b"18446744073709551615"), Some(u64::MAX));
    // one past the largest u64 does not read as a number
    assert_eq!(parse_u64(b"18446744073709551616"), None);
    assert_eq!(parse_u64(b""), None);
    assert_eq!(parse_u64(b"12a"), None);
    assert_eq!(parse_u64(b"-1"), None);
    assert_eq!(parse_u64(b" 1"), None);
}

#[test]
fn status_token_readings() {
    assert_eq!(status_of(b"404 Not Found"), 404);
    assert_eq!(status_of(b"503"), 503);
    assert_eq!(status_of(b"garbled"), 200);
    assert_eq!(status_of(b""), 200);
}
