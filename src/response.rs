use vstd::prelude::*;
use vstd::utf8::encode_utf8;

use crate::bytes::{decimal_of, extend_bytes, push_decimal};
use crate::content_type::ContentType;
use crate::errors::Exception;
use crate::request::{content_length_name, Header};

verus! {

/// `HTTP/1.1`, the version every response declares.
pub open spec fn http_version() -> Seq<u8> {
    seq![72u8, 84, 84, 80, 47, 49, 46, 49]
}

/// `OK`.
pub open spec fn ok_text() -> Seq<u8> {
    seq![79u8, 75]
}

/// `Content-Type`.
pub open spec fn content_type_name() -> Seq<u8> {
    seq![67u8, 111, 110, 116, 101, 110, 116, 45, 84, 121, 112, 101]
}

pub open spec fn json_content_type() -> Seq<u8> {
    encode_utf8(ContentType::ApplicationJson.name())
}

/// `VERSION CODE TEXT` and a line feed.
pub open spec fn status_line(version: Seq<u8>, code: nat, text: Seq<u8>) -> Seq<u8> {
    version + seq![32u8] + decimal_of(code) + seq![32u8] + text + seq![10u8]
}

/// `Name: value` and a line feed.
pub open spec fn header_line(name: Seq<u8>, value: Seq<u8>) -> Seq<u8> {
    name + seq![58u8, 32] + value + seq![10u8]
}

/// The `Content-Length` header for `body`, the empty line, and `body` itself.
pub open spec fn body_section(body: Seq<u8>) -> Seq<u8> {
    header_line(content_length_name(), decimal_of(body.len())) + seq![13u8, 10] + body
}

/// A whole response: status line, JSON content type, and the body with its length.
pub open spec fn response_bytes(code: nat, text: Seq<u8>, body: Seq<u8>) -> Seq<u8> {
    status_line(http_version(), code, text) + header_line(content_type_name(), json_content_type())
        + body_section(body)
}

/// The response that carries a JSON body with status 200.
pub open spec fn success_response(body: Seq<u8>) -> Seq<u8> {
    response_bytes(200, ok_text(), body)
}

/// The response for a failure: its status and no body.
pub open spec fn error_response(code: nat, text: Seq<char>) -> Seq<u8> {
    response_bytes(code, encode_utf8(text), Seq::empty())
}

fn http_version_bytes() -> (r: Vec<u8>)
    ensures
        r@ == http_version(),
{
    let mut v: Vec<u8> = Vec::new();
    v.push(72);
    v.push(84);
    v.push(84);
    v.push(80);
    v.push(47);
    v.push(49);
    v.push(46);
    v.push(49);
    assert(v@ =~= http_version());
    v
}

/// The first line of a response.
pub struct ResponseLine {
    http_version: Vec<u8>,
    status_code: u32,
    status_text: Vec<u8>,
}

impl View for ResponseLine {
    type V = (Seq<u8>, nat, Seq<u8>);

    closed spec fn view(&self) -> (Seq<u8>, nat, Seq<u8>) {
        (self.http_version@, self.status_code as nat, self.status_text@)
    }
}

impl ResponseLine {
    pub fn new(status_code: u32, status_text: Vec<u8>) -> (r: ResponseLine)
        ensures
            r@ == (http_version(), status_code as nat, status_text@),
    {
        ResponseLine { http_version: http_version_bytes(), status_code, status_text }
    }

    /// The line as it is sent.
    pub fn to_bytes(&self) -> (r: Vec<u8>)
        ensures
            r@ == status_line(self@.0, self@.1, self@.2),
    {
        let mut out: Vec<u8> = Vec::new();
        extend_bytes(&mut out, self.http_version.as_slice());
        out.push(32);
        push_decimal(&mut out, self.status_code as usize);
        out.push(32);
        extend_bytes(&mut out, self.status_text.as_slice());
        out.push(10);
        assert(out@ =~= status_line(self@.0, self@.1, self@.2));
        out
    }
}

impl Default for ResponseLine {
    fn default() -> (r: ResponseLine)
        ensures
            r@ == (http_version(), 200nat, ok_text()),
    {
        let mut text: Vec<u8> = Vec::new();
        text.push(79);
        text.push(75);
        assert(text@ =~= ok_text());
        ResponseLine::new(200, text)
    }
}

/// Collects a response into one buffer, to be written in a single call.
pub struct ResponseBuilder {
    response: Vec<u8>,
}

impl View for ResponseBuilder {
    type V = Seq<u8>;

    closed spec fn view(&self) -> Seq<u8> {
        self.response@
    }
}

impl ResponseBuilder {
    pub fn new() -> (r: ResponseBuilder)
        ensures
            r@ == Seq::<u8>::empty(),
    {
        ResponseBuilder { response: Vec::new() }
    }

    pub fn add_header(&mut self, h: Header)
        ensures
            final(self)@ == old(self)@ + header_line(h.0@, h.1@),
    {
        let ghost start = self@;
        extend_bytes(&mut self.response, h.0.as_slice());
        self.response.push(58);
        self.response.push(32);
        extend_bytes(&mut self.response, h.1.as_slice());
        self.response.push(10);
        assert(self@ =~= start + header_line(h.0@, h.1@));
    }

    /// Adds the `Content-Length` header, the empty line and the body.
    pub fn add_body(&mut self, body: &[u8])
        ensures
            final(self)@ == old(self)@ + body_section(body@),
    {
        let ghost start = self@;
        let mut len: Vec<u8> = Vec::new();
        push_decimal(&mut len, body.len());
        assert(len@ =~= decimal_of(body@.len()));
        self.add_header(Header(content_length_bytes(), len));
        self.response.push(13);
        self.response.push(10);
        extend_bytes(&mut self.response, body);
        assert(self@ =~= start + body_section(body@));
    }

    pub fn add_response_line(&mut self, line: ResponseLine)
        ensures
            final(self)@ == old(self)@ + status_line(line@.0, line@.1, line@.2),
    {
        let bytes = line.to_bytes();
        extend_bytes(&mut self.response, bytes.as_slice());
    }

    /// The collected response.
    pub fn into_bytes(self) -> (r: Vec<u8>)
        ensures
            r@ == self@,
    {
        self.response
    }
}

fn content_length_bytes() -> (r: Vec<u8>)
    ensures
        r@ == content_length_name(),
{
    let mut v: Vec<u8> = Vec::new();
    v.push(67);
    v.push(111);
    v.push(110);
    v.push(116);
    v.push(101);
    v.push(110);
    v.push(116);
    v.push(45);
    v.push(76);
    v.push(101);
    v.push(110);
    v.push(103);
    v.push(116);
    v.push(104);
    assert(v@ =~= content_length_name());
    v
}

fn json_content_type_header() -> (r: Header)
    ensures
        r.0@ == content_type_name(),
        r.1@ == json_content_type(),
{
    let mut name: Vec<u8> = Vec::new();
    name.push(67);
    name.push(111);
    name.push(110);
    name.push(116);
    name.push(101);
    name.push(110);
    name.push(116);
    name.push(45);
    name.push(84);
    name.push(121);
    name.push(112);
    name.push(101);
    assert(name@ =~= content_type_name());
    let mut value: Vec<u8> = Vec::new();
    extend_bytes(&mut value, ContentType::ApplicationJson.as_str().as_bytes());
    assert(value@ =~= json_content_type());
    Header(name, value)
}

/// The response for a successful handler whose value serialized to `body`.
pub fn encode_success(body: &[u8]) -> (r: Vec<u8>)
    ensures
        r@ == success_response(body@),
{
    let mut res = ResponseBuilder::new();
    res.add_response_line(ResponseLine::default());
    res.add_header(json_content_type_header());
    res.add_body(body);
    let r = res.into_bytes();
    assert(r@ =~= success_response(body@));
    r
}

/// The response for a failure: the exception's status line, and no body.
pub fn encode_error(e: &Exception) -> (r: Vec<u8>)
    ensures
        r@ == error_response(e.status_code as nat, e.status_text@),
{
    let mut text: Vec<u8> = Vec::new();
    extend_bytes(&mut text, e.status_text.as_str().as_bytes());
    let mut res = ResponseBuilder::new();
    res.add_response_line(ResponseLine::new(e.status_code, text));
    res.add_header(json_content_type_header());
    res.add_body(Vec::new().as_slice());
    let r = res.into_bytes();
    assert(r@ =~= error_response(e.status_code as nat, e.status_text@));
    r
}

/// The answer to a request that no route matches: `404 Not found`, no body.
pub fn not_found_response() -> (r: Vec<u8>)
    ensures
        r@ == error_response(404, "Not found"@),
{
    encode_error(&Exception::not_found(String::new()))
}

} // verus!
