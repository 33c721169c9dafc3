//! The error answer of the server: a status code and an optional message,
//! sent as a JSON body.
use vstd::prelude::*;

verus! {

/// An HTTP error answer: its status code and, optionally, a message.
pub struct HttpErrorResponse {
    pub status_code: u16,
    pub message: Option<String>,
}

impl HttpErrorResponse {
    /// An error answer with `status_code` and no message.
    pub fn new(status_code: u16) -> (res: HttpErrorResponse)
        ensures
            res.status_code == status_code,
            res.message is None,
    {
        HttpErrorResponse { status_code, message: None }
    }

    /// The same answer, carrying `message`.
    pub fn with_message(self, message: &str) -> (res: HttpErrorResponse)
        ensures
            res.status_code == self.status_code,
            res.message matches Some(m) && m@ == message@,
    {
        HttpErrorResponse { message: Some(String::from_str(message)), ..self }
    }
}

} // verus!
