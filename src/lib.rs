//! A minimal HTTP/1.1 server core: request decoding, route matching with named
//! path parameters, and response encoding, all over byte sequences.

pub mod body;
pub mod bytes;
pub mod content_type;
pub mod errors;
pub mod laws;
pub mod method;
pub mod request;
pub mod response;
pub mod router;
pub mod server;

pub use body::{encode_result, parse_body, strip_nul_padding};
pub use content_type::ContentType;
pub use errors::Exception;
pub use method::{HttpMethod, RequestLine, RequestLineError};
pub use request::{decode_request, DecodeError, Header, Request};
pub use response::{encode_error, encode_success, not_found_response, ResponseBuilder, ResponseLine};
pub use router::{Param, Route, Router};
pub use server::{dispatch, Dispatch};
