use response_head::error::{Error, Failure, InvalidResponse};
use response_head::header::Headers;
use response_head::line::read_line;
use response_head::response::{parse_header_line, parse_response, parse_response_head, parse_status_line};
use response_head::status::StatusCode;

fn head(input: &[u8]) -> (StatusCode, Headers, usize) {
    match parse_response_head(input) {
        Ok(h) => h,
        Err(e) => panic!("unexpected failure: {:?}", e),
    }
}

fn failure(input: &[u8]) -> Failure {
    match parse_response_head(input) {
        Ok(_) => panic!("parse should fail"),
        Err(e) => e.kind(),
    }
}

#[test]
fn test_read_request_head() {
    let response = b"HTTP/1.1 200 OK\r\nContent-Length: 5\r\nContent-Type: text/plain\r\n\r\nhello";
    let (status, headers, _) = parse_response_head(&response[..]).unwrap();
    assert_eq!(status.as_u16(), http::StatusCode::OK.as_u16());
    assert_eq!(headers.len(), 2);
    assert_eq!(headers.get(http::header::CONTENT_LENGTH.as_str().as_bytes()), Some(&b"5"[..]));
    assert_eq!(headers.get(http::header::CONTENT_TYPE.as_str().as_bytes()), Some(&b"text/plain"[..]));
}

#[test]
fn example_head_leaves_body() {
    let input = b"HTTP/1.1 200 OK\r\nContent-Length: 5\r\nContent-Type: text/plain\r\n\r\nhello";
    let (status, headers, end) = head(input);
    assert_eq!(status.as_u16(), 200);
    assert_eq!(headers.len(), 2);
    assert_eq!(headers.name_at(0), b"content-length");
    assert_eq!(headers.value_at(0), b"5");
    assert_eq!(headers.name_at(1), b"content-type");
    assert_eq!(headers.value_at(1), b"text/plain");
    assert_eq!(&input[end..], b"hello");
}

#[test]
fn headers_come_in_order_with_duplicates() {
    let input = b"HTTP/1.1 404 Not Found\r\nA: 1\r\nB: 2\r\nA: 3\r\n\r\n";
    let (status, headers, end) = head(input);
    assert_eq!(status.as_u16(), 404);
    assert_eq!(end, input.len());
    assert_eq!(headers.len(), 3);
    assert_eq!(headers.name_at(0), b"a");
    assert_eq!(headers.value_at(0), b"1");
    assert_eq!(headers.name_at(1), b"b");
    assert_eq!(headers.value_at(1), b"2");
    assert_eq!(headers.name_at(2), b"a");
    assert_eq!(headers.value_at(2), b"3");
    assert_eq!(headers.get(b"A"), Some(&b"1"[..]));
}

#[test]
fn two_set_cookie_headers_kept() {
    let input = b"HTTP/1.1 200 OK\r\nSet-Cookie: a=1\r\nSet-Cookie: b=2\r\n\r\n";
    let (_, headers, _) = head(input);
    assert_eq!(headers.len(), 2);
    let all = headers.get_all(b"set-cookie");
    assert_eq!(all, vec![b"a=1".to_vec(), b"b=2".to_vec()]);
    assert_eq!(headers.get_all(b"SET-COOKIE").len(), 2);
    assert!(headers.get_all(b"cookie").is_empty());
}

#[test]
fn garbage_fails_with_invalid_response() {
    let e = parse_response_head(b"garbage\r\n\r\n").unwrap_err();
    assert!(e.is_invalid_response());
    assert_eq!(e.kind(), Failure::InvalidResponse(InvalidResponse::StatusLine));
}

#[test]
fn empty_status_line_fails() {
    assert_eq!(failure(b"\r\n\r\n"), Failure::InvalidResponse(InvalidResponse::StatusLine));
    assert_eq!(failure(b"   HTTP/1.1   \r\n\r\n"), Failure::InvalidResponse(InvalidResponse::StatusLine));
}

#[test]
fn non_numeric_code_fails() {
    assert_eq!(failure(b"HTTP/1.1 OK 200\r\n\r\n"), Failure::InvalidResponse(InvalidResponse::StatusCode));
    assert_eq!(failure(b"HTTP/1.1 2x0 OK\r\n\r\n"), Failure::InvalidResponse(InvalidResponse::StatusCode));
}

#[test]
fn non_utf8_code_fails() {
    assert_eq!(failure(b"HTTP/1.1 \xff\xfe\xfd OK\r\n\r\n"), Failure::InvalidResponse(InvalidResponse::StatusCode));
}

#[test]
fn code_out_of_range_fails() {
    assert_eq!(failure(b"HTTP/1.1 600 X\r\n\r\n"), Failure::InvalidResponse(InvalidResponse::StatusCode));
    assert_eq!(failure(b"HTTP/1.1 099 X\r\n\r\n"), Failure::InvalidResponse(InvalidResponse::StatusCode));
    assert_eq!(failure(b"HTTP/1.1 2000 X\r\n\r\n"), Failure::InvalidResponse(InvalidResponse::StatusCode));
    assert_eq!(failure(b"HTTP/1.1 20 X\r\n\r\n"), Failure::InvalidResponse(InvalidResponse::StatusCode));
}

#[test]
fn code_bounds_accepted() {
    assert_eq!(head(b"HTTP/1.1 100 Continue\r\n\r\n").0.as_u16(), 100);
    assert_eq!(head(b"HTTP/1.1 599\r\n\r\n").0.as_u16(), 599);
}

#[test]
fn header_without_colon_fails() {
    let e = parse_response_head(b"HTTP/1.1 200 OK\r\nNoColonHere\r\n\r\n").unwrap_err();
    assert!(e.is_invalid_response());
    assert_eq!(e.kind(), Failure::InvalidResponse(InvalidResponse::HeaderWithoutColon));
}

#[test]
fn header_name_and_value_trimmed() {
    let (_, headers, _) = head(b"HTTP/1.1 200 OK\r\n  Content-Length:   5  \r\n\r\n");
    assert_eq!(headers.name_at(0), b"content-length");
    assert_eq!(headers.get(b"Content-Length"), Some(&b"5"[..]));
    let (name, value) = parse_header_line(b"Content-Length:   5  ").unwrap();
    assert_eq!(name, b"content-length".to_vec());
    assert_eq!(value, b"5".to_vec());
}

#[test]
fn value_keeps_later_colons() {
    let (name, value) = parse_header_line(b"Host: example.com:8080").unwrap();
    assert_eq!(name, b"host".to_vec());
    assert_eq!(value, b"example.com:8080".to_vec());
}

#[test]
fn empty_value_accepted() {
    let (name, value) = parse_header_line(b"X-Empty:   ").unwrap();
    assert_eq!(name, b"x-empty".to_vec());
    assert!(value.is_empty());
}

#[test]
fn invalid_header_name_fails() {
    let e = parse_response_head(b"HTTP/1.1 200 OK\r\nBad Name: x\r\n\r\n").unwrap_err();
    assert!(matches!(e, Error::InvalidHeaderName(_)));
    assert!(e.is_invalid_response());
    assert_eq!(failure(b"HTTP/1.1 200 OK\r\n: x\r\n\r\n"), Failure::InvalidHeaderName);
}

#[test]
fn invalid_header_value_fails() {
    let e = parse_response_head(b"HTTP/1.1 200 OK\r\nX: a\x01b\r\n\r\n").unwrap_err();
    assert!(matches!(e, Error::InvalidHeaderValue(_)));
    assert_eq!(failure(b"HTTP/1.1 200 OK\r\nX: a\x7fb\r\n\r\n"), Failure::InvalidHeaderValue);
}

#[test]
fn non_ascii_header_value_accepted() {
    let (_, headers, _) = head(b"HTTP/1.1 200 OK\r\nX: caf\xc3\xa9\t!\r\n\r\n");
    assert_eq!(headers.value_at(0), b"caf\xc3\xa9\t!");
}

#[test]
fn blank_line_ends_headers_before_more_bytes() {
    let input = b"HTTP/1.1 200 OK\r\nA: 1\r\n\r\nB: 2\r\n\r\n";
    let (_, headers, end) = head(input);
    assert_eq!(headers.len(), 1);
    assert_eq!(end, 25);
    assert_eq!(&input[end..], b"B: 2\r\n\r\n");
}

#[test]
fn bare_line_feeds_accepted() {
    let input = b"HTTP/1.0 301 Moved\nLocation: /x\n\nbody";
    let (status, headers, end) = head(input);
    assert_eq!(status.as_u16(), 301);
    assert!(status.is_redirection());
    assert_eq!(headers.get(b"location"), Some(&b"/x"[..]));
    assert_eq!(&input[end..], b"body");
}

#[test]
fn cut_short_head_fails_with_eof() {
    assert_eq!(failure(b""), Failure::UnexpectedEof);
    assert_eq!(failure(b"HTTP/1.1 200 OK"), Failure::UnexpectedEof);
    assert_eq!(failure(b"HTTP/1.1 200 OK\r\nA: 1\r\n"), Failure::UnexpectedEof);
    let e = parse_response_head(b"HTTP/1.1 200 OK\r\n").unwrap_err();
    assert!(matches!(e, Error::UnexpectedEof));
    assert!(!e.is_invalid_response());
}

#[test]
fn transfer_encoding_removed() {
    let input = b"HTTP/1.1 200 OK\r\nTransfer-Encoding: chunked\r\nX: 1\r\ntransfer-encoding: gzip\r\n\r\n5\r\nhello\r\n0\r\n\r\n";
    let (raw_status, raw_headers, raw_end) = head(input);
    assert_eq!(raw_headers.len(), 3);
    let (status, headers, end) = parse_response(input).unwrap();
    assert_eq!(status, raw_status);
    assert_eq!(end, raw_end);
    assert_eq!(headers.len(), 1);
    assert_eq!(headers.name_at(0), b"x");
    assert_eq!(headers.get(b"Transfer-Encoding"), None);
    assert_eq!(&input[end..end + 3], b"5\r\n");
}

#[test]
fn parse_response_reports_failures() {
    assert!(parse_response(b"garbage\r\n\r\n").unwrap_err().is_invalid_response());
}

#[test]
fn status_line_reads_second_token() {
    assert_eq!(parse_status_line(b"HTTP/1.1 204 No Content").unwrap().as_u16(), 204);
    assert_eq!(parse_status_line(b"  HTTP/1.1   418").unwrap().as_u16(), 418);
    assert!(parse_status_line(b"HTTP/1.1").is_err());
}

#[test]
fn status_classes() {
    let s = |t: &[u8]| StatusCode::from_token(t).unwrap();
    assert!(s(b"101").is_informational());
    assert!(s(b"200").is_success());
    assert!(!s(b"200").is_client_error());
    assert!(s(b"302").is_redirection());
    assert!(s(b"404").is_client_error());
    assert!(s(b"503").is_server_error());
}

#[test]
fn read_line_strips_terminator() {
    let mut line = b"old".to_vec();
    let input = b"ab\r\ncd\nef";
    assert_eq!(read_line(input, 0, &mut line).unwrap(), 4);
    assert_eq!(line, b"ab".to_vec());
    assert_eq!(read_line(input, 4, &mut line).unwrap(), 3);
    assert_eq!(line, b"cd".to_vec());
    assert!(matches!(read_line(input, 7, &mut line), Err(Error::UnexpectedEof)));
}

#[test]
fn read_line_empty_line() {
    let mut line = Vec::new();
    assert_eq!(read_line(b"\r\nrest", 0, &mut line).unwrap(), 2);
    assert!(line.is_empty());
    assert_eq!(read_line(b"\nrest", 0, &mut line).unwrap(), 1);
    assert!(line.is_empty());
}

#[test]
fn headers_remove_and_lookup() {
    let mut h = Headers::new();
    assert!(h.is_empty());
    h.append(b"a".to_vec(), b"1".to_vec());
    h.append(b"b".to_vec(), b"2".to_vec());
    h.append(b"a".to_vec(), b"3".to_vec());
    h.remove(b"A");
    assert_eq!(h.len(), 1);
    assert_eq!(h.get(b"b"), Some(&b"2"[..]));
    assert_eq!(h.get(b"a"), None);
}

#[test]
fn invalid_response_messages() {
    assert_eq!(InvalidResponse::StatusLine.message(), "invalid status line");
    assert_eq!(InvalidResponse::StatusCode.message(), "invalid status code");
    assert_eq!(InvalidResponse::HeaderWithoutColon.message(), "header has no colon");
}
