use levi::{
    decode_request, dispatch, encode_error, encode_result, encode_success, not_found_response,
    ContentType, Dispatch, Exception, Header, HttpMethod, Request, ResponseBuilder, ResponseLine, Route,
    Router,
};
use serde_json::Value;

fn text(b: &[u8]) -> String {
    String::from_utf8(b.to_vec()).unwrap()
}

/// Splits a response into status line, headers and body, as a client would.
fn read_response(bytes: &[u8]) -> (String, Vec<(String, String)>, Vec<u8>) {
    let s = text(bytes);
    let (head, body) = s.split_once("\r\n").unwrap();
    let mut lines = head.lines();
    let status = lines.next().unwrap().to_string();
    let headers = lines
        .map(|l| {
            let (k, v) = l.split_once(": ").unwrap();
            (k.to_string(), v.to_string())
        })
        .collect();
    (status, headers, body.as_bytes().to_vec())
}

fn header<'a>(hs: &'a [(String, String)], name: &str) -> Option<&'a str> {
    hs.iter().find(|(k, _)| k == name).map(|(_, v)| v.as_str())
}

#[test]
fn success_response_exact_bytes() {
    let r = encode_success(b"{\"msg\":\"hi\"}");
    assert_eq!(
        text(&r),
        "HTTP/1.1 200 OK\nContent-Type: application/json\nContent-Length: 12\n\r\n{\"msg\":\"hi\"}"
    );
}

#[test]
fn error_response_exact_bytes() {
    let e = Exception::new(409, "Conflict".to_string());
    assert!(e.message.is_empty());
    assert_eq!(
        text(&encode_error(&e)),
        "HTTP/1.1 409 Conflict\nContent-Type: application/json\nContent-Length: 0\n\r\n"
    );
}

#[test]
fn not_found_has_no_body() {
    let (status, hs, body) = read_response(&not_found_response());
    assert_eq!(status, "HTTP/1.1 404 Not found");
    assert_eq!(header(&hs, "Content-Length"), Some("0"));
    assert!(body.is_empty());
    let e = Exception::not_found("gone".to_string());
    assert_eq!(e.message, "gone");
    assert_eq!(e.status_code, 404);
    assert_eq!(e.status_text, "Not found");
}

#[test]
fn success_round_trips_through_a_client() {
    let values = ["{\"msg\":\"hi\"}", "[1,2,3]", "\"text\"", "null", "{\"a\":{\"b\":[true,false]}}"];
    for v in values {
        let value: Value = serde_json::from_str(v).unwrap();
        let (status, hs, body) = read_response(&encode_result(Ok(value.clone())));
        assert_eq!(status, "HTTP/1.1 200 OK");
        assert_eq!(header(&hs, "Content-Type"), Some("application/json"));
        assert_eq!(header(&hs, "Content-Length").unwrap().parse::<usize>().unwrap(), body.len());
        assert_eq!(serde_json::from_slice::<Value>(&body).unwrap(), value);
    }
}

#[test]
fn encode_result_error_path() {
    let r = encode_result(Err(Exception::new(503, "Service Unavailable".to_string())));
    let (status, hs, body) = read_response(&r);
    assert_eq!(status, "HTTP/1.1 503 Service Unavailable");
    assert_eq!(header(&hs, "Content-Type"), Some("application/json"));
    assert!(body.is_empty());
}

#[test]
fn builder_collects_in_order() {
    let mut b = ResponseBuilder::new();
    b.add_response_line(ResponseLine::new(201, b"Created".to_vec()));
    b.add_header(Header(b"X".to_vec(), b"1".to_vec()));
    b.add_body(b"ab");
    assert_eq!(text(&b.into_bytes()), "HTTP/1.1 201 Created\nX: 1\nContent-Length: 2\n\r\nab");
    assert_eq!(text(&ResponseLine::default().to_bytes()), "HTTP/1.1 200 OK\n");
}

#[test]
fn content_type_names() {
    assert_eq!(ContentType::ApplicationJson.as_str(), "application/json");
    assert_eq!(ContentType::ApplicationFormUrlEncoded.as_str(), "application/x-www-form-urlencoded");
    assert_eq!(ContentType::VideoWebm.as_str(), "video/webm");
    assert_eq!(ContentType::Unknown.as_str(), "unknown");
}

/// Runs one connection's cycle over in-memory bytes with the given handlers.
fn serve(router: &Router, handlers: &[fn(Request) -> Result<Value, Exception>], input: &[u8]) -> Vec<u8> {
    let req = decode_request(input).unwrap();
    match dispatch(router, req) {
        Dispatch::Handle(i, req) => encode_result(handlers[i](req)),
        Dispatch::Respond(bytes) => bytes,
    }
}

fn hello(_: Request) -> Result<Value, Exception> {
    Ok(serde_json::from_str("{\"msg\":\"hi\"}").unwrap())
}

fn echo(req: Request) -> Result<Value, Exception> {
    req.json().ok_or_else(|| Exception::new(400, "Bad Request".to_string()))
}

fn param_id(req: Request) -> Result<Value, Exception> {
    let (_, v) = req.params.iter().find(|(k, _)| k == b"id").unwrap();
    Ok(Value::String(text(v)))
}

#[test]
fn scenario_get_hello() {
    let mut router = Router::new();
    router.add_route(Route::new(b"/hello".to_vec(), HttpMethod::Get));
    let out = serve(&router, &[hello], b"GET /hello HTTP/1.1\r\nHost: x\r\n\r\n");
    let (status, hs, body) = read_response(&out);
    assert_eq!(status, "HTTP/1.1 200 OK");
    assert_eq!(header(&hs, "Content-Type"), Some("application/json"));
    assert_eq!(text(&body), "{\"msg\":\"hi\"}");
}

#[test]
fn scenario_missing_route() {
    let router = Router::new();
    let out = serve(&router, &[], b"GET /missing HTTP/1.1\r\n\r\n");
    let (status, _, body) = read_response(&out);
    assert!(status.starts_with("HTTP/1.1 404"));
    assert!(body.is_empty());
}

#[test]
fn scenario_post_echo() {
    let mut router = Router::new();
    router.add_route(Route::new(b"/echo".to_vec(), HttpMethod::Post));
    let out = serve(&router, &[echo], b"POST /echo HTTP/1.1\r\nContent-Length: 7\r\n\r\n{\"a\":1}");
    let (status, _, body) = read_response(&out);
    assert_eq!(status, "HTTP/1.1 200 OK");
    assert_eq!(text(&body), "{\"a\":1}");
}

#[test]
fn handler_error_is_sent_verbatim() {
    let mut router = Router::new();
    router.add_route(Route::new(b"/echo".to_vec(), HttpMethod::Post));
    let out = serve(&router, &[echo], b"POST /echo HTTP/1.1\r\n\r\n");
    let (status, _, body) = read_response(&out);
    assert_eq!(status, "HTTP/1.1 400 Bad Request");
    assert!(body.is_empty());
}

#[test]
fn handler_sees_path_params() {
    let mut router = Router::new();
    router.add_route(Route::new(b"/users/:id".to_vec(), HttpMethod::Get));
    router.add_route(Route::new(b"/users/me".to_vec(), HttpMethod::Get));
    let out = serve(&router, &[param_id, hello], b"GET /users/me HTTP/1.1\r\n\r\n");
    let (_, _, body) = read_response(&out);
    assert_eq!(text(&body), "\"me\"");
}

#[test]
fn content_type_from_name() {
    assert_eq!("application/json".parse::<ContentType>(), Ok(ContentType::ApplicationJson));
    assert_eq!("image/gif".parse::<ContentType>(), Ok(ContentType::ImageGif));
    assert_eq!("Application/JSON".parse::<ContentType>(), Ok(ContentType::Unknown));
    assert_eq!("".parse::<ContentType>(), Ok(ContentType::Unknown));
    assert_eq!(ContentType::from_bytes(b"text/css"), ContentType::TextCss);
    assert_eq!(ContentType::from_bytes(b"unknown"), ContentType::Unknown);
}

#[test]
fn predefined_exceptions() {
    let cases: [(fn(String) -> Exception, u32, &str); 11] = [
        (Exception::unauthorized, 401, "Unauthorized"),
        (Exception::bad_request, 400, "Bad Request"),
        (Exception::forbidden, 403, "Forbidden"),
        (Exception::not_found, 404, "Not found"),
        (Exception::conflict, 409, "Conflict"),
        (Exception::unprocessable_entity, 422, "Unprocessable Entity"),
        (Exception::too_many_requests, 429, "Too Many Requests"),
        (Exception::internal_server_error, 500, "Internal Server Error"),
        (Exception::not_implemented, 501, "Not Implemented"),
        (Exception::service_unavailable, 503, "Service Unavailable"),
        (Exception::gateway_timeout, 504, "Gateway Timeout"),
    ];
    for (make, code, text) in cases {
        let e = make("m".to_string());
        assert_eq!(e.status_code, code);
        assert_eq!(e.status_text, text);
        assert_eq!(e.message, "m");
    }
    let mut e = Exception::forbidden(String::new());
    e.add_message("no".to_string());
    assert_eq!((e.status_code, e.message.as_str()), (403, "no"));
}

#[test]
fn content_type_from_str_round_trips() {
    let all = [
        ContentType::TextPlain, ContentType::TextHtml, ContentType::TextCss, ContentType::ApplicationJson,
        ContentType::ApplicationJavascript, ContentType::ApplicationXml, ContentType::ApplicationOctetStream,
        ContentType::MultipartFormData, ContentType::ApplicationFormUrlEncoded, ContentType::ImagePng,
        ContentType::ImageJpeg, ContentType::ImageGif, ContentType::AudioMpeg, ContentType::AudioOgg,
        ContentType::VideoMp4, ContentType::VideoWebm, ContentType::Unknown,
    ];
    for c in all {
        assert_eq!(c.as_str().parse::<ContentType>(), Ok(c));
    }
}
