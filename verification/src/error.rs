use vstd::prelude::*;

verus! {

/// The library's error: a human readable message, with an HTTP status and
/// a machine readable code for the errors that are meant for a client.
#[derive(Debug, Clone, PartialEq, Eq)]
pub struct Error {
    pub message: String,
    pub status: Option<u16>,
    pub code: Option<String>,
}

impl View for Error {
    type V = Seq<char>;

    open spec fn view(&self) -> Seq<char> {
        self.message@
    }
}

impl Error {
    /// Whether the error carries only its message: no HTTP status and no
    /// machine readable code.
    pub open spec fn is_plain(self) -> bool {
        self.status is None && self.code is None
    }

    /// An error that carries only a message.
    pub fn message(message: String) -> (e: Error)
        ensures
            e@ == message@,
            e.status is None,
            e.code is None,
    {
        Error { message, status: None, code: None }
    }

    /// An error meant for an HTTP client, with its status and code.
    pub fn http_with_code(status: u16, message: String, code: &str) -> (e: Error)
        ensures
            e@ == message@,
            e.status == Some(status),
            e.code matches Some(c) && c@ == code@,
    {
        Error { message, status: Some(status), code: Some(code.to_string()) }
    }

    /// The message, as the error's text.
    pub fn to_text(&self) -> (s: String)
        ensures
            s@ == self@,
    {
        self.message.clone()
    }
}

} // verus!
