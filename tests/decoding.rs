use levi::{decode_request, parse_body, strip_nul_padding, DecodeError, Header, HttpMethod, RequestLine, RequestLineError};

fn text(b: &[u8]) -> String {
    String::from_utf8(b.to_vec()).unwrap()
}

#[test]
fn header_parses_and_trims() {
    let h = Header::from_header_str(b"  Host :  example.org ").unwrap();
    assert_eq!(text(&h.0), "Host");
    assert_eq!(text(&h.1), "example.org");
}

#[test]
fn header_needs_exactly_one_colon() {
    assert!(Header::from_header_str(b"no colon here").is_none());
    assert!(Header::from_header_str(b"Host: a:b").is_none());
    assert!(Header::from_header_str(b"").is_none());
    let h = Header::from_header_str(b":").unwrap();
    assert!(h.0.is_empty() && h.1.is_empty());
}

#[test]
fn request_line_three_words() {
    let l = RequestLine::try_from(b"DELETE  /items/3\tHTTP/1.0").ok().unwrap();
    assert_eq!(l.method, HttpMethod::Delete);
    assert_eq!(text(&l.path), "/items/3");
    assert_eq!(text(&l.http_version), "HTTP/1.0");
}

#[test]
fn request_line_errors() {
    assert_eq!(RequestLine::try_from(b"GET /").err(), Some(RequestLineError::Malformed));
    assert_eq!(RequestLine::try_from(b"GET / HTTP/1.1 x").err(), Some(RequestLineError::Malformed));
    assert_eq!(RequestLine::try_from(b"").err(), Some(RequestLineError::Malformed));
    assert_eq!(RequestLine::try_from(b"get / HTTP/1.1").err(), Some(RequestLineError::UnsupportedMethod));
    assert_eq!(RequestLine::try_from(b"HEAD / HTTP/1.1").err(), Some(RequestLineError::UnsupportedMethod));
}

#[test]
fn every_verb_is_read() {
    let verbs: [(&[u8], HttpMethod); 5] = [
        (b"GET", HttpMethod::Get),
        (b"POST", HttpMethod::Post),
        (b"PUT", HttpMethod::Put),
        (b"PATCH", HttpMethod::Patch),
        (b"DELETE", HttpMethod::Delete),
    ];
    for (w, m) in verbs {
        assert_eq!(HttpMethod::from_bytes(w), Some(m));
    }
    assert_eq!(HttpMethod::from_bytes(b"OPTIONS"), None);
}

#[test]
fn decodes_simple_get() {
    let req = decode_request(b"GET /hello HTTP/1.1\r\nHost: x\r\n\r\n").unwrap();
    assert_eq!(req.method, HttpMethod::Get);
    assert_eq!(text(&req.path), "/hello");
    assert_eq!(text(&req.http_version), "HTTP/1.1");
    assert_eq!(req.headers.len(), 1);
    assert_eq!(text(&req.headers[0].0), "Host");
    assert_eq!(text(&req.headers[0].1), "x");
    assert_eq!(req.body().unwrap().len(), 0);
    assert!(req.params.is_empty());
}

#[test]
fn decodes_body_of_content_length() {
    let req = decode_request(b"POST /echo HTTP/1.1\r\nContent-Length: 7\r\n\r\n{\"a\":1}trailing").unwrap();
    assert_eq!(req.content_length(), 7);
    assert_eq!(text(req.body().unwrap()), "{\"a\":1}");
}

#[test]
fn missing_content_length_gives_empty_body() {
    let req = decode_request(b"POST /x HTTP/1.1\r\n\r\nignored").unwrap();
    assert_eq!(req.content_length(), 0);
    assert_eq!(req.body().map(|b| b.len()), Some(0));
}

#[test]
fn zero_content_length_gives_empty_body() {
    let req = decode_request(b"POST /x HTTP/1.1\r\nContent-Length: 0\r\n\r\nignored").unwrap();
    assert_eq!(req.body().map(|b| b.len()), Some(0));
}

#[test]
fn invalid_content_length_counts_as_zero() {
    let req = decode_request(b"POST /x HTTP/1.1\r\nContent-Length: abc\r\n\r\nbody").unwrap();
    assert_eq!(req.content_length(), 0);
    assert_eq!(req.body().map(|b| b.len()), Some(0));
    let req = decode_request(b"POST /x HTTP/1.1\r\nContent-Length: -1\r\n\r\nbody").unwrap();
    assert_eq!(req.content_length(), 0);
    let req = decode_request(b"POST /x HTTP/1.1\r\nContent-Length: 99999999999999999999999\r\n\r\nbody").unwrap();
    assert_eq!(req.content_length(), 0);
}

#[test]
fn content_length_name_is_case_sensitive() {
    let req = decode_request(b"POST /x HTTP/1.1\r\ncontent-length: 4\r\n\r\nbody").unwrap();
    assert_eq!(req.content_length(), 0);
}

#[test]
fn plus_sign_content_length_is_read() {
    let req = decode_request(b"POST /x HTTP/1.1\r\nContent-Length: +3\r\n\r\nbody").unwrap();
    assert_eq!(text(req.body().unwrap()), "bod");
}

#[test]
fn first_content_length_header_counts() {
    let req = decode_request(b"POST /x HTTP/1.1\r\nContent-Length: 2\r\nContent-Length: 4\r\n\r\nbody").unwrap();
    assert_eq!(text(req.body().unwrap()), "bo");
}

#[test]
fn short_stream_truncates_body() {
    let req = decode_request(b"POST /x HTTP/1.1\r\nContent-Length: 10\r\n\r\nabc").unwrap();
    assert_eq!(text(req.body().unwrap()), "abc");
}

#[test]
fn bare_line_feed_ends_the_head() {
    let req = decode_request(b"GET /a HTTP/1.1\r\nContent-Length: 2\r\n\nxy").unwrap();
    assert_eq!(text(&req.path), "/a");
    assert_eq!(text(req.body().unwrap()), "xy");
}

#[test]
fn headers_keep_order_and_duplicates() {
    let req = decode_request(b"GET / HTTP/1.1\r\nA: 1\r\nbogus\r\nA: 2\r\nB: 3\r\n\r\n").unwrap();
    let hs: Vec<(String, String)> = req.headers.iter().map(|h| (text(&h.0), text(&h.1))).collect();
    assert_eq!(
        hs,
        vec![
            ("A".to_string(), "1".to_string()),
            ("A".to_string(), "2".to_string()),
            ("B".to_string(), "3".to_string())
        ]
    );
}

#[test]
fn decode_errors() {
    assert_eq!(decode_request(b"GET / HTTP/1.1\r\nHost: x\r\n").err(), Some(DecodeError::Incomplete));
    assert_eq!(decode_request(b"").err(), Some(DecodeError::Incomplete));
    assert_eq!(decode_request(b"GET /\r\n\r\n").err(), Some(DecodeError::MalformedRequestLine));
    assert_eq!(decode_request(b"TRACE / HTTP/1.1\r\n\r\n").err(), Some(DecodeError::UnsupportedMethod));
}

#[test]
fn decoding_twice_gives_equal_requests() {
    let input: &[u8] = b"PUT /k/1 HTTP/1.1\r\nX: y\r\nContent-Length: 3\r\n\r\nabc";
    let a = decode_request(input).unwrap();
    let b = decode_request(input).unwrap();
    assert_eq!(a.method, b.method);
    assert_eq!(a.path, b.path);
    assert_eq!(a.http_version, b.http_version);
    let ha: Vec<(Vec<u8>, Vec<u8>)> = a.headers.iter().map(|h| (h.0.clone(), h.1.clone())).collect();
    let hb: Vec<(Vec<u8>, Vec<u8>)> = b.headers.iter().map(|h| (h.0.clone(), h.1.clone())).collect();
    assert_eq!(ha, hb);
    assert_eq!(a.body(), b.body());
    assert_eq!(a.params, b.params);
}

#[test]
fn body_json_strips_nul_padding() {
    let req = decode_request(b"POST /x HTTP/1.1\r\nContent-Length: 9\r\n\r\n{\"a\":1}\0\0").unwrap();
    let v = req.json().unwrap();
    assert_eq!(v, serde_json::from_str::<serde_json::Value>("{\"a\":1}").unwrap());
}

#[test]
fn body_json_absent_when_invalid_or_empty() {
    let req = decode_request(b"POST /x HTTP/1.1\r\nContent-Length: 3\r\n\r\n{x}").unwrap();
    assert!(req.json().is_none());
    let req = decode_request(b"GET /x HTTP/1.1\r\n\r\n").unwrap();
    assert!(req.json().is_none());
}

#[test]
fn parse_body_reads_json() {
    assert_eq!(parse_body(b"[1,2]\0").unwrap(), serde_json::from_str::<serde_json::Value>("[1,2]").unwrap());
    assert!(parse_body(b"\0\0").is_err());
    assert!(parse_body(b"").is_err());
    assert!(parse_body(b"nope").is_err());
}

#[test]
fn strip_nul_padding_only_trailing() {
    assert_eq!(strip_nul_padding(b"a\0b\0\0"), b"a\0b".to_vec());
    assert_eq!(strip_nul_padding(b"\0"), Vec::<u8>::new());
}

#[test]
fn request_line_is_not_a_header() {
    let req = decode_request(b"GET http://h:80/x HTTP/1.1\r\nA: 1\r\n\r\n").unwrap();
    assert_eq!(text(&req.path), "http://h:80/x");
    assert_eq!(req.headers.len(), 1);
    assert_eq!(text(&req.headers[0].0), "A");
}

#[test]
fn header_trims_unicode_whitespace() {
    let h = Header::from_header_str("A:\u{a0}x\u{3000}".as_bytes()).unwrap();
    assert_eq!(text(&h.0), "A");
    assert_eq!(text(&h.1), "x");
    let h = Header::from_header_str("\u{2009}Name\u{85}: v\u{2029}\t".as_bytes()).unwrap();
    assert_eq!(text(&h.0), "Name");
    assert_eq!(text(&h.1), "v");
    let h = Header::from_header_str("K: \u{e9}\u{200b}".as_bytes()).unwrap();
    assert_eq!(text(&h.1), "\u{e9}\u{200b}");
}

#[test]
fn request_line_splits_at_unicode_whitespace() {
    let l = RequestLine::try_from("GET /\u{a0}H".as_bytes()).ok().unwrap();
    assert_eq!(text(&l.path), "/");
    assert_eq!(text(&l.http_version), "H");
    let l = RequestLine::try_from("\u{1680}PUT\u{2000}/\u{e0}\u{205f}\u{202f}V\u{3000}".as_bytes()).ok().unwrap();
    assert_eq!(l.method, HttpMethod::Put);
    assert_eq!(text(&l.path), "/\u{e0}");
    assert_eq!(text(&l.http_version), "V");
}

#[test]
fn json_body_some_exactly_when_parsable() {
    let req = decode_request(b"POST /x HTTP/1.1\r\nContent-Length: 5\r\n\r\n[1]\0\0").unwrap();
    assert_eq!(req.json().unwrap(), serde_json::from_str::<serde_json::Value>("[1]").unwrap());
    let req = decode_request(b"POST /x HTTP/1.1\r\nContent-Length: 4\r\n\r\n[1]x").unwrap();
    assert!(req.json().is_none());
}
