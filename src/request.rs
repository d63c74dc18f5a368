use vstd::prelude::*;

use crate::bytes::{
    copy_range, parse_decimal, parse_usize, split_bytes, split_crlf, split_lines, split_on,
    trim_spaces, trim_ws, views,
};
use crate::method::{request_line_parts, HttpMethod, RequestLine, RequestLineError};
use crate::router::{param_views, Param};

verus! {

/// A header line split at its only `:`, both sides trimmed; `None` when the line holds
/// no `:` or more than one.
pub open spec fn header_of(s: Seq<u8>) -> Option<(Seq<u8>, Seq<u8>)> {
    let parts = split_on(s, 58);
    if parts.len() == 2 {
        Some((trim_ws(parts[0]), trim_ws(parts[1])))
    } else {
        None
    }
}

/// The headers among `entries`, in order; entries that are not headers are skipped.
pub open spec fn headers_of(entries: Seq<Seq<u8>>) -> Seq<(Seq<u8>, Seq<u8>)>
    decreases entries.len(),
{
    if entries.len() == 0 {
        Seq::empty()
    } else {
        let prev = headers_of(entries.drop_last());
        match header_of(entries.last()) {
            Some(h) => prev.push(h),
            None => prev,
        }
    }
}

/// `Content-Length`, matched exactly.
pub open spec fn content_length_name() -> Seq<u8> {
    seq![67u8, 111, 110, 116, 101, 110, 116, 45, 76, 101, 110, 103, 116, 104]
}

/// The value of the first `Content-Length` header, or 0 when there is none or its value
/// is not an unsigned integer.
pub open spec fn content_length_of(hs: Seq<(Seq<u8>, Seq<u8>)>) -> nat
    decreases hs.len(),
{
    if hs.len() == 0 {
        0
    } else if hs[0].0 == content_length_name() {
        match parse_usize(hs[0].1) {
            Some(n) => n,
            None => 0,
        }
    } else {
        content_length_of(hs.drop_first())
    }
}

/// A header: name and value.
pub struct Header(pub Vec<u8>, pub Vec<u8>);

impl View for Header {
    type V = (Seq<u8>, Seq<u8>);

    open spec fn view(&self) -> (Seq<u8>, Seq<u8>) {
        (self.0@, self.1@)
    }
}

pub open spec fn header_views(hs: Seq<Header>) -> Seq<(Seq<u8>, Seq<u8>)> {
    hs.map_values(|h: Header| h@)
}

impl Header {
    /// Parses `name: value`; anything else is not a header.
    pub fn from_header_str(s: &[u8]) -> (r: Option<Header>)
        ensures
            match header_of(s@) {
                Some(h) => r matches Some(x) && x@ == h,
                None => r is None,
            },
    {
        let pair = split_bytes(s, 58);
        if pair.len() != 2 {
            return None;
        }
        assert(views(pair@)[0] == pair@[0]@);
        assert(views(pair@)[1] == pair@[1]@);
        let name = trim_spaces(pair[0].as_slice());
        let value = trim_spaces(pair[1].as_slice());
        Some(Header(name, value))
    }
}

/// Why a byte stream is not a request; the connection is dropped without a response.
#[derive(Debug, Clone, Copy, PartialEq, Eq, Structural)]
pub enum DecodeError {
    /// The stream ended before the empty line that closes the header section.
    Incomplete,
    MalformedRequestLine,
    UnsupportedMethod,
}

/// Position `p` starts an empty line: a line of its own that is a bare LF or CR LF.
pub open spec fn blank_line_at(s: Seq<u8>, p: int) -> bool {
    &&& 0 <= p < s.len()
    &&& (p == 0 || s[p - 1] == 10)
    &&& (s[p] == 10 || (p + 1 < s.len() && s[p] == 13 && s[p + 1] == 10))
}

pub open spec fn blank_len(s: Seq<u8>, p: int) -> int {
    if s[p] == 10 {
        1
    } else {
        2
    }
}

/// The first position at or after `p` that starts an empty line.
pub open spec fn first_blank_from(s: Seq<u8>, p: int) -> Option<int>
    decreases s.len() - p,
{
    if p < 0 || p >= s.len() {
        None
    } else if blank_line_at(s, p) {
        Some(p)
    } else {
        first_blank_from(s, p + 1)
    }
}

/// What a decoded request holds.
pub ghost struct RequestView {
    pub method: HttpMethod,
    pub path: Seq<u8>,
    pub http_version: Seq<u8>,
    pub headers: Seq<(Seq<u8>, Seq<u8>)>,
    pub body: Option<Seq<u8>>,
    pub params: Seq<(Seq<u8>, Seq<u8>)>,
}

/// The request that the byte stream `s` carries: the lines before the first empty line
/// are the request line and then the headers; after the empty line come up to
/// `Content-Length` bytes of body.
pub open spec fn decoded(s: Seq<u8>) -> Result<RequestView, DecodeError> {
    match first_blank_from(s, 0) {
        None => Err(DecodeError::Incomplete),
        Some(p) => {
            let entries = split_crlf(s.subrange(0, p));
            match request_line_parts(entries[0]) {
                Err(RequestLineError::Malformed) => Err(DecodeError::MalformedRequestLine),
                Err(RequestLineError::UnsupportedMethod) => Err(DecodeError::UnsupportedMethod),
                Ok((m, path, version)) => {
                    let hs = headers_of(entries.drop_first());
                    let start = p + blank_len(s, p);
                    let cl = content_length_of(hs);
                    let end = if start + cl <= s.len() {
                        start + cl
                    } else {
                        s.len() as int
                    };
                    Ok(
                        RequestView {
                            method: m,
                            path,
                            http_version: version,
                            headers: hs,
                            body: Some(s.subrange(start, end)),
                            params: Seq::empty(),
                        },
                    )
                },
            }
        },
    }
}

/// A decoded request; `params` is filled in by routing.
pub struct Request {
    pub headers: Vec<Header>,
    raw_body: Option<Vec<u8>>,
    pub method: HttpMethod,
    pub params: Vec<Param>,
    pub http_version: Vec<u8>,
    pub path: Vec<u8>,
}

impl View for Request {
    type V = RequestView;

    closed spec fn view(&self) -> RequestView {
        RequestView {
            method: self.method,
            path: self.path@,
            http_version: self.http_version@,
            headers: header_views(self.headers@),
            body: match self.raw_body {
                Some(b) => Some(b@),
                None => None,
            },
            params: param_views(self.params@),
        }
    }
}

proof fn lemma_split_crlf_nonempty(s: Seq<u8>)
    ensures
        split_crlf(s).len() >= 1,
    decreases s.len(),
{
    if s.len() >= 2 && s[s.len() - 2] == 13 && s.last() == 10 {
        lemma_split_crlf_nonempty(s.subrange(0, s.len() - 2));
    } else if s.len() > 0 {
        lemma_split_crlf_nonempty(s.drop_last());
    }
}

pub proof fn lemma_first_blank_is_blank(s: Seq<u8>, q: int)
    ensures
        first_blank_from(s, q) matches Some(p) ==> blank_line_at(s, p) && q <= p,
    decreases s.len() - q,
{
    if 0 <= q < s.len() && !blank_line_at(s, q) {
        lemma_first_blank_is_blank(s, q + 1);
    }
}

fn find_blank_line(s: &[u8]) -> (r: Option<usize>)
    ensures
        r matches Some(p) ==> first_blank_from(s@, 0) == Some(p as int),
        r is None ==> first_blank_from(s@, 0) is None,
{
    let n = s.len();
    let mut p: usize = 0;
    while p < n
        invariant
            0 <= p <= n,
            n == s@.len(),
            first_blank_from(s@, 0) == first_blank_from(s@, p as int),
        decreases n - p,
    {
        let starts_line = p == 0 || s[p - 1] == 10;
        if starts_line && (s[p] == 10 || (p + 1 < n && s[p] == 13 && s[p + 1] == 10)) {
            return Some(p);
        }
        p += 1;
    }
    None
}

/// The headers among the entries that follow the request line.
fn collect_headers(entries: &Vec<Vec<u8>>) -> (r: Vec<Header>)
    requires
        entries@.len() >= 1,
    ensures
        header_views(r@) == headers_of(views(entries@).drop_first()),
{
    let mut hs: Vec<Header> = Vec::new();
    let mut i: usize = 1;
    assert(views(entries@).subrange(1, 1) =~= Seq::<Seq<u8>>::empty());
    while i < entries.len()
        invariant
            1 <= i <= entries@.len(),
            header_views(hs@) == headers_of(views(entries@).subrange(1, i as int)),
        decreases entries@.len() - i,
    {
        proof {
            let pre = views(entries@).subrange(1, i + 1);
            assert(pre.drop_last() =~= views(entries@).subrange(1, i as int));
            assert(pre.last() == entries@[i as int]@);
        }
        match Header::from_header_str(entries[i].as_slice()) {
            Some(h) => {
                let ghost before = hs@;
                hs.push(h);
                assert(header_views(hs@) =~= header_views(before).push(h@));
            },
            None => {},
        }
        i += 1;
    }
    assert(views(entries@).subrange(1, entries@.len() as int) =~= views(entries@).drop_first());
    hs
}

fn content_length_in(hs: &Vec<Header>) -> (r: usize)
    ensures
        r as nat == content_length_of(header_views(hs@)),
{
    let ghost all = header_views(hs@);
    let mut i: usize = 0;
    proof {
        assert(all.subrange(0, all.len() as int) =~= all);
    }
    while i < hs.len()
        invariant
            0 <= i <= hs@.len(),
            all == header_views(hs@),
            content_length_of(all) == content_length_of(all.subrange(i as int, all.len() as int)),
        decreases hs@.len() - i,
    {
        let h = &hs[i];
        let ghost rest = all.subrange(i as int, all.len() as int);
        assert(rest[0] == h@);
        if is_content_length_name(h.0.as_slice()) {
            return match parse_decimal(h.1.as_slice()) {
                Some(n) => n,
                None => 0,
            };
        }
        assert(rest.drop_first() =~= all.subrange(i + 1, all.len() as int));
        i += 1;
    }
    0
}

fn is_content_length_name(s: &[u8]) -> (r: bool)
    ensures
        r == (s@ == content_length_name()),
{
    let r = s.len() == 14 && s[0] == 67 && s[1] == 111 && s[2] == 110 && s[3] == 116 && s[4]
        == 101 && s[5] == 110 && s[6] == 116 && s[7] == 45 && s[8] == 76 && s[9] == 101 && s[10]
        == 110 && s[11] == 103 && s[12] == 116 && s[13] == 104;
    if r {
        assert(s@ =~= content_length_name());
    }
    r
}

/// Decodes one request from the bytes of a connection.
pub fn decode_request(input: &[u8]) -> (r: Result<Request, DecodeError>)
    ensures
        match decoded(input@) {
            Ok(v) => r matches Ok(req) && req@ == v,
            Err(e) => r matches Err(e2) && e2 == e,
        },
{
    let p = match find_blank_line(input) {
        Some(p) => p,
        None => {
            return Err(DecodeError::Incomplete);
        },
    };
    proof {
        lemma_first_blank_is_blank(input@, 0);
    }
    let head = copy_range(input, 0, p);
    let entries = split_lines(head.as_slice());
    proof {
        lemma_split_crlf_nonempty(head@);
        assert(views(entries@)[0] == entries@[0]@);
        assert(split_crlf(input@.subrange(0, p as int))[0] == entries@[0]@);
    }
    let line = match RequestLine::try_from(entries[0].as_slice()) {
        Ok(l) => l,
        Err(RequestLineError::Malformed) => {
            assert(request_line_parts(entries@[0]@) matches Err(RequestLineError::Malformed));
            return Err(DecodeError::MalformedRequestLine);
        },
        Err(RequestLineError::UnsupportedMethod) => {
            assert(request_line_parts(entries@[0]@) matches Err(
                RequestLineError::UnsupportedMethod,
            ));
            return Err(DecodeError::UnsupportedMethod);
        },
    };
    let headers = collect_headers(&entries);
    let cl = content_length_in(&headers);
    let start: usize = if input[p] == 10 {
        p + 1
    } else {
        p + 2
    };
    let end: usize = if cl <= input.len() - start {
        start + cl
    } else {
        input.len()
    };
    let body = copy_range(input, start, end);
    let req = Request {
        headers,
        raw_body: Some(body),
        method: line.method,
        params: Vec::new(),
        http_version: line.http_version,
        path: line.path,
    };
    assert(param_views(req.params@) =~= Seq::empty());
    Ok(req)
}

impl Request {
    /// The body as it was read, if any.
    pub fn body(&self) -> (r: Option<&Vec<u8>>)
        ensures
            match self@.body {
                Some(b) => r matches Some(x) && x@ == b,
                None => r is None,
            },
    {
        match &self.raw_body {
            Some(b) => Some(b),
            None => None,
        }
    }

    pub fn path(&self) -> (r: &[u8])
        ensures
            r@ == self@.path,
    {
        self.path.as_slice()
    }

    pub fn method(&self) -> (r: HttpMethod)
        ensures
            r == self@.method,
    {
        self.method
    }

    /// Replaces the path parameters, as routing binds them.
    pub fn set_params(&mut self, params: Vec<Param>)
        ensures
            final(self)@ == (RequestView { params: param_views(params@), ..old(self)@ }),
    {
        self.params = params;
    }

    /// The declared body length: the first `Content-Length` header read as an unsigned
    /// integer, 0 when absent or unreadable.
    pub fn content_length(&self) -> (r: usize)
        ensures
            r as nat == content_length_of(self@.headers),
    {
        content_length_in(&self.headers)
    }
}

} // verus!
