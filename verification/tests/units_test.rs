use rust_server::error::ServerError;
use rust_server::header::{ContentType, HttpHeader};
use rust_server::message::Header;
use rust_server::method::Method;
use rust_server::status_code::StatusCode;
use rust_server::text::{parse_u64, split_str, trim, trim_start};

#[test]
fn method_names() {
    assert_eq!(Method::Get.as_str(), "GET");
    assert_eq!(Method::Other.as_str(), "Other");
    assert_eq!(Method::from_str("DELETE"), Ok(Method::Delete));
    assert_eq!(Method::from_str("delete"), Ok(Method::Delete));
    assert_eq!(Method::from_str("gEt"), Ok(Method::Get));
    assert_eq!(Method::from_str("Other"), Err(()));
    assert_eq!(Method::from_str("XET"), Err(()));
}

#[test]
fn http_header_names() {
    assert_eq!(HttpHeader::ContentLength.as_str(), "Content-Length");
    assert_eq!(HttpHeader::ContentType.as_str(), "Content-Type");
    assert_eq!(HttpHeader::UserAgent.as_str(), "User-Agent");
    assert_eq!(HttpHeader::Accept.as_str(), "Accept");
}

#[test]
fn content_type_names_and_parse() {
    assert_eq!(ContentType::TextHtml.as_str(), "text/html");
    assert_eq!(ContentType::from_str("IMAGE/JPEG"), Ok(ContentType::ImageJpeg));
    assert_eq!(
        ContentType::from_str("application/json"),
        Ok(ContentType::ApplicationJson)
    );
    assert_eq!(ContentType::from_str("video/mp4"), Err(()));
    assert!(ContentType::TextPlain.is_textual());
    assert!(!ContentType::ImagePng.is_textual());
}

#[test]
fn status_code_tables() {
    assert_eq!(StatusCode::Okay.as_num(), 200);
    assert_eq!(StatusCode::Okay.as_str(), "Ok");
    assert_eq!(StatusCode::NotFound.as_num(), 404);
    assert_eq!(StatusCode::NotFound.as_str(), "Not Found");
    assert_eq!(StatusCode::from_num(302), Ok(StatusCode::Found));
    assert_eq!(StatusCode::from_num(999), Err(()));
    assert_eq!(StatusCode::from_str("bad request"), Ok(StatusCode::BadRequest));
    assert_eq!(StatusCode::from_str("Teapot"), Err(()));
    for c in [
        StatusCode::Continue,
        StatusCode::Okay,
        StatusCode::Created,
        StatusCode::Accepted,
        StatusCode::Found,
        StatusCode::BadRequest,
        StatusCode::NotFound,
    ] {
        assert_eq!(StatusCode::from_num(c.as_num()), Ok(c));
        assert_eq!(c.as_num_str(), c.as_num().to_string());
    }
}

#[test]
fn error_names() {
    assert_eq!(ServerError::ReadHeaderError.as_str(), "ReadHeaderError");
    assert_eq!(ServerError::ParseError.as_str(), "ParseError");
    assert_eq!(ServerError::ReadLineError.as_str(), "ReadLineError");
}

#[test]
fn header_map_is_case_insensitive_last_write_wins() {
    let mut h = Header::new();
    h.insert("Accept".to_string(), "text/html".to_string());
    h.insert("ACCEPT".to_string(), "*/*".to_string());
    assert_eq!(h.len(), 1);
    assert_eq!(h.get("accept"), Some(&"*/*".to_string()));
    h.insert("Host".to_string(), "h".to_string());
    assert_eq!(h.len(), 2);
    assert_eq!(h.get("HOST"), Some(&"h".to_string()));
    assert_eq!(h.get("nope"), None);
}

#[test]
fn split_keeps_empty_tokens() {
    let toks = split_str("GET  /", ' ');
    assert_eq!(toks, vec!["GET".to_string(), String::new(), "/".to_string()]);
    assert_eq!(split_str("", ' '), vec![String::new()]);
    assert_eq!(split_str("a", ' '), vec!["a".to_string()]);
}

#[test]
fn trim_strips_spaces_and_tabs() {
    assert_eq!(trim_start("  \tv "), "v ");
    assert_eq!(trim(" \t v \t "), "v");
    assert_eq!(trim(""), "");
}

#[test]
fn decimal_parse_with_zero_fallback() {
    assert_eq!(parse_u64("42"), 42);
    assert_eq!(parse_u64("0"), 0);
    assert_eq!(parse_u64(""), 0);
    assert_eq!(parse_u64("12a"), 0);
    assert_eq!(parse_u64("-3"), 0);
    assert_eq!(parse_u64("18446744073709551615"), u64::MAX);
    assert_eq!(parse_u64("18446744073709551616"), 0);
}
