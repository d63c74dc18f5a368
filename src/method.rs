use vstd::prelude::*;

use crate::bytes::{copy_range, split_spaces, views, words};

verus! {

/// The request methods this server understands.
#[derive(Debug, Clone, Copy, PartialEq, Eq, Structural)]
pub enum HttpMethod {
    Get,
    Post,
    Patch,
    Put,
    Delete,
}

impl Default for HttpMethod {
    fn default() -> (r: Self)
        ensures
            r == HttpMethod::Get,
    {
        HttpMethod::Get
    }
}

/// The method named by `w`: the verb in upper case, exactly.
pub open spec fn method_named(w: Seq<u8>) -> Option<HttpMethod> {
    if w == seq![71u8, 69, 84] {
        Some(HttpMethod::Get)
    } else if w == seq![80u8, 79, 83, 84] {
        Some(HttpMethod::Post)
    } else if w == seq![80u8, 65, 84, 67, 72] {
        Some(HttpMethod::Patch)
    } else if w == seq![80u8, 85, 84] {
        Some(HttpMethod::Put)
    } else if w == seq![68u8, 69, 76, 69, 84, 69] {
        Some(HttpMethod::Delete)
    } else {
        None
    }
}

impl HttpMethod {
    /// Reads a method verb; the match is case-sensitive.
    pub fn from_bytes(w: &[u8]) -> (r: Option<HttpMethod>)
        ensures
            r == method_named(w@),
    {
        let n = w.len();
        if n == 3 && w[0] == 71 && w[1] == 69 && w[2] == 84 {
            assert(w@ =~= seq![71u8, 69, 84]);
            Some(HttpMethod::Get)
        } else if n == 4 && w[0] == 80 && w[1] == 79 && w[2] == 83 && w[3] == 84 {
            assert(w@ =~= seq![80u8, 79, 83, 84]);
            Some(HttpMethod::Post)
        } else if n == 5 && w[0] == 80 && w[1] == 65 && w[2] == 84 && w[3] == 67 && w[4] == 72 {
            assert(w@ =~= seq![80u8, 65, 84, 67, 72]);
            Some(HttpMethod::Patch)
        } else if n == 3 && w[0] == 80 && w[1] == 85 && w[2] == 84 {
            assert(w@ =~= seq![80u8, 85, 84]);
            Some(HttpMethod::Put)
        } else if n == 6 && w[0] == 68 && w[1] == 69 && w[2] == 76 && w[3] == 69 && w[4] == 84
            && w[5] == 69 {
            assert(w@ =~= seq![68u8, 69, 76, 69, 84, 69]);
            Some(HttpMethod::Delete)
        } else {
            None
        }
    }
}

/// Why a request line was refused.
#[derive(Debug, Clone, Copy, PartialEq, Eq, Structural)]
pub enum RequestLineError {
    /// The line does not hold exactly three whitespace-separated words.
    Malformed,
    /// The first word is not one of the supported verbs.
    UnsupportedMethod,
}

/// The three parts of a request line.
pub open spec fn request_line_parts(line: Seq<u8>) -> Result<
    (HttpMethod, Seq<u8>, Seq<u8>),
    RequestLineError,
> {
    let w = words(line);
    if w.len() != 3 {
        Err(RequestLineError::Malformed)
    } else {
        match method_named(w[0]) {
            Some(m) => Ok((m, w[1], w[2])),
            None => Err(RequestLineError::UnsupportedMethod),
        }
    }
}

/// `METHOD PATH VERSION`, the first line of a request.
pub struct RequestLine {
    pub method: HttpMethod,
    pub path: Vec<u8>,
    pub http_version: Vec<u8>,
}

impl RequestLine {
    pub fn try_from(v: &[u8]) -> (r: Result<RequestLine, RequestLineError>)
        ensures
            match request_line_parts(v@) {
                Ok((m, p, h)) => r matches Ok(l) && l.method == m && l.path@ == p
                    && l.http_version@ == h,
                Err(e) => r matches Err(e2) && e2 == e,
            },
    {
        let w = split_spaces(v);
        if w.len() != 3 {
            return Err(RequestLineError::Malformed);
        }
        assert(views(w@)[0] == w@[0]@);
        assert(views(w@)[1] == w@[1]@);
        assert(views(w@)[2] == w@[2]@);
        let method = match HttpMethod::from_bytes(w[0].as_slice()) {
            Some(m) => m,
            None => {
                return Err(RequestLineError::UnsupportedMethod);
            },
        };
        let path = copy_range(w[1].as_slice(), 0, w[1].len());
        let http_version = copy_range(w[2].as_slice(), 0, w[2].len());
        assert(path@ =~= w@[1]@);
        assert(http_version@ =~= w@[2]@);
        Ok(RequestLine { method, path, http_version })
    }
}

} // verus!
