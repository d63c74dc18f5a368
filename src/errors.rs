use vstd::prelude::*;

verus! {

/// A failure reported by a handler: the status to answer with, and a message.
pub struct Exception {
    pub status_code: u32,
    pub status_text: String,
    pub message: String,
}

impl Exception {
    pub fn new(status_code: u32, status_text: String) -> (r: Exception)
        ensures
            r.status_code == status_code,
            r.status_text@ == status_text@,
            r.message@ == Seq::<char>::empty(),
    {
        Exception { status_code, status_text, message: String::new() }
    }

    /// `401 Unauthorized`, with `message`.
    pub fn unauthorized(message: String) -> (r: Exception)
        ensures
            r.status_code == 401,
            r.status_text@ == "Unauthorized"@,
            r.message@ == message@,
    {
        Exception { status_code: 401, status_text: String::from_str("Unauthorized"), message }
    }

    /// `400 Bad Request`, with `message`.
    pub fn bad_request(message: String) -> (r: Exception)
        ensures
            r.status_code == 400,
            r.status_text@ == "Bad Request"@,
            r.message@ == message@,
    {
        Exception { status_code: 400, status_text: String::from_str("Bad Request"), message }
    }

    /// `403 Forbidden`, with `message`.
    pub fn forbidden(message: String) -> (r: Exception)
        ensures
            r.status_code == 403,
            r.status_text@ == "Forbidden"@,
            r.message@ == message@,
    {
        Exception { status_code: 403, status_text: String::from_str("Forbidden"), message }
    }

    /// `404 Not found`, with `message`.
    pub fn not_found(message: String) -> (r: Exception)
        ensures
            r.status_code == 404,
            r.status_text@ == "Not found"@,
            r.message@ == message@,
    {
        Exception { status_code: 404, status_text: String::from_str("Not found"), message }
    }

    /// `409 Conflict`, with `message`.
    pub fn conflict(message: String) -> (r: Exception)
        ensures
            r.status_code == 409,
            r.status_text@ == "Conflict"@,
            r.message@ == message@,
    {
        Exception { status_code: 409, status_text: String::from_str("Conflict"), message }
    }

    /// `422 Unprocessable Entity`, with `message`.
    pub fn unprocessable_entity(message: String) -> (r: Exception)
        ensures
            r.status_code == 422,
            r.status_text@ == "Unprocessable Entity"@,
            r.message@ == message@,
    {
        Exception { status_code: 422, status_text: String::from_str("Unprocessable Entity"), message }
    }

    /// `429 Too Many Requests`, with `message`.
    pub fn too_many_requests(message: String) -> (r: Exception)
        ensures
            r.status_code == 429,
            r.status_text@ == "Too Many Requests"@,
            r.message@ == message@,
    {
        Exception { status_code: 429, status_text: String::from_str("Too Many Requests"), message }
    }

    /// `500 Internal Server Error`, with `message`.
    pub fn internal_server_error(message: String) -> (r: Exception)
        ensures
            r.status_code == 500,
            r.status_text@ == "Internal Server Error"@,
            r.message@ == message@,
    {
        Exception { status_code: 500, status_text: String::from_str("Internal Server Error"), message }
    }

    /// `501 Not Implemented`, with `message`.
    pub fn not_implemented(message: String) -> (r: Exception)
        ensures
            r.status_code == 501,
            r.status_text@ == "Not Implemented"@,
            r.message@ == message@,
    {
        Exception { status_code: 501, status_text: String::from_str("Not Implemented"), message }
    }

    /// `503 Service Unavailable`, with `message`.
    pub fn service_unavailable(message: String) -> (r: Exception)
        ensures
            r.status_code == 503,
            r.status_text@ == "Service Unavailable"@,
            r.message@ == message@,
    {
        Exception { status_code: 503, status_text: String::from_str("Service Unavailable"), message }
    }

    /// `504 Gateway Timeout`, with `message`.
    pub fn gateway_timeout(message: String) -> (r: Exception)
        ensures
            r.status_code == 504,
            r.status_text@ == "Gateway Timeout"@,
            r.message@ == message@,
    {
        Exception { status_code: 504, status_text: String::from_str("Gateway Timeout"), message }
    }

    /// Replaces the message; the status stays.
    pub fn add_message(&mut self, s: String)
        ensures
            final(self).status_code == old(self).status_code,
            final(self).status_text@ == old(self).status_text@,
            final(self).message@ == s@,
    {
        self.message = s;
    }
}

} // verus!
