//! Tests of the incremental request parser and the protocol model.

use objstore::bytes::parse_dec;
use objstore::http::{status_code_lookup, Method, MimeType};
use objstore::parser::Parser;
use objstore::request::headers_get;

#[test]
fn test_update() {
    let mut parser = Parser::new();

    let data = b"GET / HTTP/1.1\r\nHost: example.com\r\nContent-Length: 0\r\n\r\n";
    parser.update(data);

    assert!(!parser.is_invalid());
    assert!(parser.is_done());

    let request = parser.request.as_ref().unwrap();

    assert_eq!(request.method, Method::GET);
    assert_eq!(request.uri, b"/".to_vec());
    assert_eq!(request.version, b"HTTP/1.1".to_vec());

    assert_eq!(
        headers_get(&request.headers, b"host"),
        Some(&b"example.com".to_vec())
    );
    assert_eq!(
        headers_get(&request.headers, b"content-length"),
        Some(&b"0".to_vec())
    );
}

#[test]
fn test_update_with_invalid_data() {
    let mut parser = Parser::new();

    let data = b"INVALID DATA";
    parser.update(data);

    assert!(parser.is_invalid());
    assert!(parser.is_done());
}

#[test]
fn chunked_parse_equals_whole_parse() {
    let data = b"PUT /a/b.txt HTTP/1.1\r\nHost: h\r\nContent-Length: 5\r\n\r\nhello";

    let mut whole = Parser::new();
    whole.update(data);

    let mut chunked = Parser::new();
    for b in data.iter() {
        chunked.update(&[*b]);
    }

    assert_eq!(whole.is_invalid(), chunked.is_invalid());
    assert_eq!(whole.is_done(), chunked.is_done());
    assert!(whole.is_done());

    let rw = whole.consume_request().unwrap();
    let rc = chunked.consume_request().unwrap();
    assert_eq!(rw.method, rc.method);
    assert_eq!(rw.uri, rc.uri);
    assert_eq!(rw.version, rc.version);
    assert_eq!(rw.headers, rc.headers);
    assert_eq!(rw.raw_body, rc.raw_body);
    assert_eq!(rw.raw_body, b"hello".to_vec());
    assert_eq!(rw.content_length, Some(5));
}

#[test]
fn bad_method_or_version_is_invalid_and_done() {
    let mut p = Parser::new();
    p.update(b"BREW / HTTP/1.1\r\n");
    assert!(p.is_invalid());
    assert!(p.is_done());

    let mut p = Parser::new();
    p.update(b"GET / FTP/1.1\r\n");
    assert!(p.is_invalid());
    assert!(p.is_done());
}

#[test]
fn content_length_gates_completion() {
    let mut p = Parser::new();
    p.update(b"POST /x HTTP/1.1\r\nContent-Length: 4\r\n\r\n");
    assert!(!p.is_done());
    p.update(b"ab");
    assert!(!p.is_done());
    p.update(b"cd");
    assert!(p.is_done());
    let r = p.consume_request().unwrap();
    assert_eq!(r.raw_body, b"abcd".to_vec());
}

#[test]
fn header_names_fold_case() {
    let mut upper = Parser::new();
    upper.update(b"POST /x HTTP/1.1\r\nContent-Length: 2\r\n\r\nok");
    let mut lower = Parser::new();
    lower.update(b"POST /x HTTP/1.1\r\ncontent-length: 2\r\n\r\nok");
    let ru = upper.consume_request().unwrap();
    let rl = lower.consume_request().unwrap();
    assert_eq!(ru.content_length, Some(2));
    assert_eq!(rl.content_length, Some(2));
    assert_eq!(
        headers_get(&ru.headers, b"content-length"),
        headers_get(&rl.headers, b"content-length")
    );
}

#[test]
fn cookies_and_mime_are_derived() {
    let mut p = Parser::new();
    p.update(
        b"GET /x HTTP/1.1\r\nCookie: a=1; b=2; broken\r\nContent-Type: text/plain; charset=utf-8\r\n\r\n",
    );
    assert!(!p.is_invalid());
    let r = p.consume_request().unwrap();
    let cookies = r.cookies.unwrap();
    assert_eq!(headers_get(&cookies, b"a"), Some(&b"1".to_vec()));
    assert_eq!(headers_get(&cookies, b"b"), Some(&b"2".to_vec()));
    assert_eq!(headers_get(&cookies, b"broken"), None);
    assert!(matches!(r.mime_type, Some(MimeType::TextPlain)));
}

#[test]
fn method_and_mime_tables() {
    assert!(matches!(Method::from_str(b"LIST"), Ok(Method::LIST)));
    assert!(Method::from_str(b"get").is_err());
    assert!(matches!(
        MimeType::from_str(b"application/json"),
        MimeType::ApplicationJson
    ));
    assert!(matches!(
        MimeType::from_str(b"anything/else"),
        MimeType::ApplicationOctetStream
    ));
    assert!(MimeType::TextHtml.is_utf8());
    assert!(!MimeType::ImagePng.is_utf8());
    assert_eq!(MimeType::ImageSvg.to_str(), "image/svg+xml");
    assert_eq!(status_code_lookup(404), "Not Found");
    assert_eq!(status_code_lookup(999), "Unknown");
}

#[test]
fn decimal_parse_is_exact() {
    assert_eq!(parse_dec(b"0"), Some(0));
    assert_eq!(parse_dec(b"18446744073709551615"), Some(u64::MAX));
    assert_eq!(parse_dec(b"18446744073709551616"), None);
    assert_eq!(parse_dec(b""), None);
    assert_eq!(parse_dec(b"12a"), None);
}

#[test]
fn malformed_content_length_is_invalid() {
    let mut p = Parser::new();
    p.update(b"GET / HTTP/1.1\r\nContent-Length: abc\r\n\r\n");
    assert!(p.is_invalid());
    assert!(p.is_done());
}
