use rust_server::header::ContentType;
use rust_server::message::{Request, RequestBody, RequestState, Response, ResponseBody};
use rust_server::method::Method;
use rust_server::status_code::StatusCode;

#[test]
fn parse_header() {
    let input = b"GET / HTTP/1.1\r\nHost: 127.0.0.1:7878\r\nAccept: */*\r\n\r\n";
    let mut m = Request::new();
    m.parse(input).unwrap();
    println!(
        "{}",
        format!(
            "method: {}, path: {}, version: {}",
            m.method.as_str(),
            m.path,
            m.version
        )
    );
    println!("{:?}", m.headers);
    assert_eq!(m.method, Method::Get);
    assert_eq!(m.path, "/");
    assert_eq!(m.version, "HTTP/1.1");
}

#[test]
fn first_line_tokens() {
    let mut m = Request::new();
    m.parse(b"GET / HTTP/1.1\r\n\r\n").unwrap();
    assert_eq!(m.method, Method::Get);
    assert_eq!(m.path, "/");
    assert_eq!(m.version, "HTTP/1.1");
}

#[test]
fn first_line_case_insensitive_method() {
    let mut m = Request::new();
    m.parse(b"pOsT /submit HTTP/1.0\r\n\r\n").unwrap();
    assert_eq!(m.method, Method::Post);
    assert_eq!(m.path, "/submit");
    assert_eq!(m.version, "HTTP/1.0");
}

#[test]
fn first_line_two_tokens_is_version_only() {
    let mut m = Request::new();
    m.parse(b"GET HTTP/1.1\r\n\r\n").unwrap();
    assert_eq!(m.method, Method::Get);
    assert_eq!(m.path, "/");
    assert_eq!(m.version, "HTTP/1.1");
}

#[test]
fn unknown_method_fails() {
    let mut m = Request::new();
    let r = m.parse(b"FROB / HTTP/1.1\r\n\r\n");
    assert_eq!(r, Err(rust_server::error::ServerError::ReadHeaderError));
}

#[test]
fn one_token_first_line_fails() {
    let mut m = Request::new();
    let r = m.parse(b"GET\r\n\r\n");
    assert_eq!(r, Err(rust_server::error::ServerError::ReadHeaderError));
}

#[test]
fn header_line_without_colon_fails() {
    let mut m = Request::new();
    let r = m.parse(b"GET / HTTP/1.1\r\nNoColonHere\r\n\r\n");
    assert_eq!(r, Err(rust_server::error::ServerError::ReadHeaderError));
}

#[test]
fn textual_body_with_content_length() {
    let mut m = Request::new();
    m.parse(b"POST / HTTP/1.1\r\nContent-Length: 5\r\n\r\nhello")
        .unwrap();
    assert_eq!(m.content_length, 5);
    assert_eq!(m.body, Some(RequestBody::StringBody("hello".to_string())));
}

#[test]
fn binary_body_keeps_bytes() {
    let payload: [u8; 6] = [0x89, b'P', b'N', b'G', 0x00, 0xFF];
    let mut input = b"POST /img HTTP/1.1\r\nContent-Type: image/png\r\nContent-Length: 6\r\n\r\n"
        .to_vec();
    input.extend_from_slice(&payload);
    let mut m = Request::new();
    m.parse(&input).unwrap();
    assert_eq!(m.content_type, ContentType::ImagePng);
    assert_eq!(m.body, Some(RequestBody::BytesBody(payload.to_vec())));
}

#[test]
fn short_body_is_tolerated() {
    let mut m = Request::new();
    m.parse(b"POST / HTTP/1.1\r\nContent-Length: 100\r\n\r\nabc")
        .unwrap();
    assert_eq!(m.content_length, 100);
    assert_eq!(m.body, Some(RequestBody::StringBody("abc".to_string())));
}

#[test]
fn body_truncated_to_content_length() {
    let mut m = Request::new();
    m.parse(b"POST / HTTP/1.1\r\nContent-Length: 2\r\n\r\nabcdef")
        .unwrap();
    assert_eq!(m.body, Some(RequestBody::StringBody("ab".to_string())));
}

#[test]
fn invalid_utf8_in_textual_body_is_replaced() {
    let mut input = b"POST / HTTP/1.1\r\nContent-Length: 1\r\n\r\n".to_vec();
    input.push(0xFF);
    let mut m = Request::new();
    m.parse(&input).unwrap();
    assert_eq!(
        m.body,
        Some(RequestBody::StringBody("\u{FFFD}".to_string()))
    );
}

#[test]
fn bad_content_length_falls_back_to_zero() {
    let mut m = Request::new();
    m.parse(b"GET / HTTP/1.1\r\nContent-Length: ten\r\n\r\n")
        .unwrap();
    assert_eq!(m.content_length, 0);
    assert_eq!(m.body, Some(RequestBody::StringBody(String::new())));
}

#[test]
fn unknown_content_type_keeps_default() {
    let mut m = Request::new();
    m.parse(b"GET / HTTP/1.1\r\nContent-Type: video/mp4\r\n\r\n")
        .unwrap();
    assert_eq!(m.content_type, ContentType::TextPlain);
}

#[test]
fn ordinary_headers_land_in_the_map() {
    let mut m = Request::new();
    m.parse(b"GET / HTTP/1.1\r\nHost: example.org\r\nX-Tag: a:b:c\r\n\r\n")
        .unwrap();
    assert_eq!(m.headers.get("Host"), Some(&"example.org".to_string()));
    assert_eq!(m.headers.get("host"), Some(&"example.org".to_string()));
    assert_eq!(m.headers.get("X-Tag"), Some(&"a:b:c".to_string()));
    assert_eq!(m.headers.get("Missing"), None);
}

#[test]
fn repeated_header_last_write_wins() {
    let mut m = Request::new();
    m.parse(b"GET / HTTP/1.1\r\nX-K: one\r\nx-k: two\r\n\r\n")
        .unwrap();
    assert_eq!(m.headers.len(), 1);
    assert_eq!(m.headers.get("X-K"), Some(&"two".to_string()));
}

#[test]
fn parse_line_steps_through_states() {
    let mut m = Request::new();
    let s1 = m.parse_line("GET /a HTTP/1.1").unwrap();
    assert_eq!(s1, RequestState::Header);
    let s2 = m.parse_line("Host: h").unwrap();
    assert_eq!(s2, RequestState::Header);
    let s3 = m.parse_line("").unwrap();
    assert_eq!(s3, RequestState::Body);
    assert_eq!(m.method, Method::Get);
    assert_eq!(m.path, "/a");
}

#[test]
fn format_minimal_response() {
    let res = Response::new();
    assert_eq!(res.status_code, StatusCode::Okay);
    let wire = res.format();
    assert_eq!(wire, b"HTTP/1.1 200 Ok\r\n\r\n".to_vec());
}

#[test]
fn format_with_header_and_text_body() {
    let mut res = Response::new();
    res.headers.insert("X-K".to_string(), "v".to_string());
    res.body = Some(ResponseBody::StringBody("hi".to_string()));
    let wire = res.format();
    assert_eq!(wire, b"HTTP/1.1 200 Ok\r\nX-K: v\r\n\r\nhi".to_vec());
}

#[test]
fn format_with_binary_body() {
    let mut res = Response::new();
    res.status_code = StatusCode::NotFound;
    res.body = Some(ResponseBody::BytesBody(vec![0u8, 1u8, 255u8]));
    let wire = res.format();
    let mut expected = b"HTTP/1.1 404 Not Found\r\n\r\n".to_vec();
    expected.extend_from_slice(&[0u8, 1u8, 255u8]);
    assert_eq!(wire, expected);
}

#[test]
fn header_grammar_round_trip() {
    let mut res = Response::new();
    res.headers
        .insert("X-My-Headers".to_string(), "hello world".to_string());
    res.body = Some(ResponseBody::StringBody("page".to_string()));
    let wire = res.format();
    let first_line_end = wire.windows(2).position(|w| w == b"\r\n").unwrap();
    let header_section = &wire[first_line_end + 2..];
    let mut reparse = b"GET / HTTP/1.1\r\n".to_vec();
    reparse.extend_from_slice(header_section);
    let mut m = Request::new();
    m.parse(&reparse).unwrap();
    assert_eq!(
        m.headers.get("X-My-Headers"),
        Some(&"hello world".to_string())
    );
}

#[test]
fn empty_input_yields_defaults() {
    let mut m = Request::new();
    m.parse(b"").unwrap();
    assert_eq!(m.method, Method::Other);
    assert_eq!(m.path, "/");
    assert_eq!(m.body, Some(RequestBody::StringBody(String::new())));
}
