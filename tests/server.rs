use http_server::request::{parse_request, read_progress, read_request, ParseError, ReadNeed};
use http_server::response::{ContentType, HttpResponse};
use http_server::router::{
    handle_request, process_request, respond_to_error, respond_to_read, respond_to_write, Action,
    FileRead,
};
use http_server::text::{append_decimal, parse_usize};

fn response_of(a: Action) -> HttpResponse {
    match a {
        Action::Respond(r) => r,
        other => panic!("expected a response, got {:?}", other),
    }
}

#[test]
fn echo_hello() {
    let r = response_of(handle_request(b"GET /echo/hello HTTP/1.1\r\nHost: localhost\r\n\r\n", false));
    assert_eq!(r.respond_code, 200);
    assert_eq!(r.content_type, ContentType::TextPlain);
    assert_eq!(r.body, Some(b"hello".to_vec()));
    assert_eq!(r.msg, b"OK".to_vec());
}

#[test]
fn unknown_path_is_not_found() {
    let r = response_of(handle_request(b"GET /nonexistent HTTP/1.1\r\n\r\n", false));
    assert_eq!(r.respond_code, 404);
    assert_eq!(r.body, None);
    assert_eq!(r.msg, b"Not Found".to_vec());
}

#[test]
fn missing_file_is_not_found() {
    match handle_request(b"GET /files/missing.txt HTTP/1.1\r\n\r\n", true) {
        Action::ReadFile { name } => assert_eq!(name, b"missing.txt".to_vec()),
        other => panic!("expected a file read, got {:?}", other),
    }
    let r = respond_to_read(FileRead::Missing);
    assert_eq!(r.respond_code, 404);
    assert_eq!(r.body, None);
}

#[test]
fn user_agent_is_sent_back() {
    let input = b"GET /user-agent HTTP/1.1\r\nHost: localhost\r\nUser-Agent: test-client/1.0\r\n\r\n";
    let r = response_of(handle_request(input, false));
    assert_eq!(r.respond_code, 200);
    assert_eq!(r.content_type, ContentType::TextPlain);
    assert_eq!(r.body, Some(b"test-client/1.0".to_vec()));
}

#[test]
fn missing_user_agent_is_bad_request() {
    let r = response_of(handle_request(b"GET /user-agent HTTP/1.1\r\n\r\n", false));
    assert_eq!(r.respond_code, 400);
    assert_eq!(r.msg, b"Bad Request".to_vec());
}

#[test]
fn last_user_agent_wins() {
    let input = b"GET /user-agent HTTP/1.1\r\nUser-Agent: a\r\nUser-Agent: b\r\n\r\n";
    let req = parse_request(input).unwrap();
    assert_eq!(req.user_agent, Some(b"b".to_vec()));
}

#[test]
fn declared_length_beyond_stream_is_truncated() {
    let input = b"POST /files/x HTTP/1.1\r\nContent-Length: 10\r\n\r\nabc";
    assert_eq!(parse_request(input).unwrap_err(), ParseError::TruncatedStream);
    assert_eq!(read_progress(input), ReadNeed::Bytes(7));
    let r = response_of(handle_request(input, true));
    assert_eq!(r.respond_code, 400);
}

#[test]
fn non_numeric_length_is_malformed() {
    let input = b"POST /files/x HTTP/1.1\r\nContent-Length: abc\r\n\r\nabc";
    assert_eq!(parse_request(input).unwrap_err(), ParseError::MalformedRequest);
    let negative = b"POST /files/x HTTP/1.1\r\nContent-Length: -1\r\n\r\n";
    assert_eq!(parse_request(negative).unwrap_err(), ParseError::MalformedRequest);
    let huge = b"POST /x HTTP/1.1\r\nContent-Length: 99999999999999999999999\r\n\r\n";
    assert_eq!(parse_request(huge).unwrap_err(), ParseError::MalformedRequest);
    assert_eq!(read_progress(input), ReadNeed::Complete);
}

#[test]
fn content_length_matches_rendered_body() {
    let r = HttpResponse::new_ok_response(200, ContentType::TextPlain, Some(b"hello".to_vec()));
    assert_eq!(
        r.to_string(),
        b"HTTP/1.1 200 OK\r\nContent-Type: text/plain\r\nContent-Length: 5\r\n\r\nhello".to_vec()
    );
    let empty = HttpResponse::new_not_found_response();
    assert_eq!(
        empty.to_string(),
        b"HTTP/1.1 404 Not Found\r\nContent-Type: text/plain\r\nContent-Length: 0\r\n\r\n".to_vec()
    );
}

#[test]
fn file_written_then_read_back() {
    let body = b"some \x00 bytes".to_vec();
    let mut post = b"POST /files/x HTTP/1.1\r\nContent-Length: 12\r\n\r\n".to_vec();
    post.extend_from_slice(&body);
    match handle_request(&post, true) {
        Action::WriteFile { name, contents } => {
            assert_eq!(name, b"x".to_vec());
            assert_eq!(contents, body);
        }
        other => panic!("expected a file write, got {:?}", other),
    }
    let written = respond_to_write(true);
    assert_eq!(written.respond_code, 201);
    assert_eq!(written.msg, b"Created".to_vec());
    let name = match handle_request(b"GET /files/x HTTP/1.1\r\n\r\n", true) {
        Action::ReadFile { name } => name,
        other => panic!("expected a file read, got {:?}", other),
    };
    assert_eq!(name, b"x".to_vec());
    let r = respond_to_read(FileRead::Contents(body.clone()));
    assert_eq!(r.respond_code, 200);
    assert_eq!(r.content_type, ContentType::OctetStream);
    assert_eq!(r.body, Some(body));
}

#[test]
fn failed_file_operations_are_server_errors() {
    assert_eq!(respond_to_write(false).respond_code, 500);
    let r = respond_to_read(FileRead::Failed);
    assert_eq!(r.respond_code, 500);
    assert_eq!(r.msg, b"Internal Server Error".to_vec());
}

#[test]
fn file_routes_need_a_directory() {
    let r = response_of(handle_request(b"GET /files/a HTTP/1.1\r\n\r\n", false));
    assert_eq!(r.respond_code, 404);
    let post = b"POST /files/a HTTP/1.1\r\nContent-Length: 1\r\n\r\nz";
    let r = response_of(handle_request(post, false));
    assert_eq!(r.respond_code, 404);
}

#[test]
fn echo_still_answers_with_a_directory() {
    let r = response_of(handle_request(b"GET /echo/abc HTTP/1.1\r\n\r\n", true));
    assert_eq!(r.respond_code, 200);
    assert_eq!(r.body, Some(b"abc".to_vec()));
}

#[test]
fn post_without_body_does_not_write() {
    let r = response_of(handle_request(b"POST /files/a HTTP/1.1\r\n\r\n", true));
    assert_eq!(r.respond_code, 404);
}

#[test]
fn root_is_empty_ok() {
    let r = response_of(handle_request(b"GET / HTTP/1.1\r\n\r\n", false));
    assert_eq!(r.respond_code, 200);
    assert_eq!(r.body, None);
    assert_eq!(
        r.to_string(),
        b"HTTP/1.1 200 OK\r\nContent-Type: text/plain\r\nContent-Length: 0\r\n\r\n".to_vec()
    );
}

#[test]
fn request_fields_are_read() {
    let input = b"POST /files/n HTTP/1.1\r\nHost: h\r\nContent-Length: 3\r\n\r\nabcdef";
    let req = parse_request(input).unwrap();
    assert_eq!(req.method, b"POST".to_vec());
    assert_eq!(req.path, b"/files/n".to_vec());
    assert_eq!(req.user_agent, None);
    assert_eq!(req.content_length, Some(3));
    assert_eq!(req.body, Some(b"abc".to_vec()));
}

#[test]
fn incomplete_or_empty_heads() {
    assert_eq!(parse_request(b"").unwrap_err(), ParseError::TruncatedStream);
    assert_eq!(parse_request(b"GET / HTTP/1.1\r\nHost: h\r\n").unwrap_err(), ParseError::TruncatedStream);
    assert_eq!(parse_request(b"\r\n").unwrap_err(), ParseError::MalformedRequest);
    assert_eq!(parse_request(b"GET\r\n\r\n").unwrap_err(), ParseError::MalformedRequest);
    let degenerate = parse_request(b"GET \r\n\r\n").unwrap();
    assert_eq!(degenerate.method, b"GET".to_vec());
    assert_eq!(degenerate.path, Vec::<u8>::new());
}

#[test]
fn progress_follows_the_frame() {
    assert_eq!(read_progress(b"GET / HTTP/1.1\r\n"), ReadNeed::Line);
    assert_eq!(read_progress(b"GET / HTTP/1.1\r\n\r\n"), ReadNeed::Complete);
    assert_eq!(read_progress(b"GET\r\n\r\n"), ReadNeed::Complete);
    assert_eq!(read_progress(b"POST /x HTTP/1.1\r\nContent-Length: 2\r\n\r\nab"), ReadNeed::Complete);
}

#[test]
fn body_must_be_utf8_text() {
    let bad = b"POST /files/x HTTP/1.1\r\nContent-Length: 2\r\n\r\n\xff\xfe";
    assert!(parse_request(bad).is_ok());
    assert_eq!(read_request(bad).unwrap_err(), ParseError::MalformedRequest);
    let good = "POST /files/x HTTP/1.1\r\nContent-Length: 6\r\n\r\nh\u{e9}llo".as_bytes();
    assert_eq!(read_request(good).unwrap().body, Some("h\u{e9}llo".as_bytes().to_vec()));
}

#[test]
fn error_response_is_bad_request() {
    assert_eq!(respond_to_error(ParseError::TruncatedStream).respond_code, 400);
}

#[test]
fn unsigned_numbers() {
    assert_eq!(parse_usize(b"0"), Some(0));
    assert_eq!(parse_usize(b"+42"), Some(42));
    assert_eq!(parse_usize(b"18446744073709551615"), Some(usize::MAX));
    assert_eq!(parse_usize(b"18446744073709551616"), None);
    assert_eq!(parse_usize(b""), None);
    assert_eq!(parse_usize(b"+"), None);
    assert_eq!(parse_usize(b"4 "), None);
}

#[test]
fn decimal_rendering() {
    let mut out = b"n=".to_vec();
    append_decimal(&mut out, 1207);
    assert_eq!(out, b"n=1207".to_vec());
    let mut zero = Vec::new();
    append_decimal(&mut zero, 0);
    assert_eq!(zero, b"0".to_vec());
}

#[test]
fn direct_routing() {
    let req = parse_request(b"GET /echo/ HTTP/1.1\r\n\r\n").unwrap();
    let r = response_of(process_request(&req, false));
    assert_eq!(r.body, Some(Vec::new()));
}

#[test]
fn head_lines_must_be_utf8_text() {
    let header = b"GET / HTTP/1.1\r\nX: \xff\r\n\r\n";
    assert_eq!(parse_request(header).unwrap_err(), ParseError::MalformedRequest);
    assert_eq!(read_request(header).unwrap_err(), ParseError::MalformedRequest);
    let r = response_of(handle_request(header, false));
    assert_eq!(r.respond_code, 400);
    let path = b"GET /echo/\xff HTTP/1.1\r\n\r\n";
    assert_eq!(read_request(path).unwrap_err(), ParseError::MalformedRequest);
    assert_eq!(read_progress(header), ReadNeed::Complete);
}

#[test]
fn body_follows_the_first_blank_line() {
    let body = b"a\r\n\r\nContent-Length: 99".to_vec();
    let r = HttpResponse::new_ok_response(200, ContentType::OctetStream, Some(body.clone()));
    let wire = r.to_string();
    let blank = wire.windows(4).position(|w| w == b"\r\n\r\n").unwrap();
    assert_eq!(wire[blank + 4..].to_vec(), body);
    let head = &wire[..blank + 4];
    let text = std::str::from_utf8(head).unwrap();
    assert_eq!(text.matches("Content-Length: ").count(), 1);
    assert_eq!(body.len(), 23);
    assert!(text.contains("Content-Length: 23\r\n"));
    assert_eq!(HttpResponse::new_ok_response(302, ContentType::TextPlain, None).msg, b"OK".to_vec());
}
