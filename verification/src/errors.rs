//! The errors of the file server: one catch-all error with a message and an
//! optional cause, and a handful of fixed causes.

use vstd::prelude::*;

verus! {

/// The name under which a `ServerError` announces what it wraps.
pub const SERVER_ERROR_NAME: &'static str = "udpx::errors::ServerError";

/// The name under which an `HttpParseError` announces itself.
pub const HTTP_PARSE_ERROR_NAME: &'static str = "udpx::errors::HttpParseError";

/// An error that another error wraps, as far as the wrapper reads it: the
/// text that it prints.
#[derive(Debug)]
pub struct SourceError {
    pub message: String,
}

impl View for SourceError {
    type V = Seq<char>;

    open spec fn view(&self) -> Seq<char> {
        self.message@
    }
}

impl Clone for SourceError {
    fn clone(&self) -> (c: SourceError)
        ensures
            c@ == self@,
    {
        SourceError { message: self.message.clone() }
    }
}

impl SourceError {
    /// A cause that prints `message`.
    pub fn new(message: &str) -> (e: SourceError)
        ensures
            e@ == message@,
    {
        SourceError { message: String::from_str(message) }
    }
}

/// The fixed causes.
#[derive(Debug, Clone, Copy, PartialEq, Eq, Structural)]
pub enum BasicErrorKind {
    MalformedRequest,
    UnsupportedProto,
    UnsupportedMethod,
    WritingToDirectory,
    WritingToSymlink,
    UdpxConnectionClosed,
}

/// The text that a fixed cause prints.
pub open spec fn basic_text(kind: BasicErrorKind) -> Seq<char> {
    match kind {
        BasicErrorKind::MalformedRequest => "Malformed request"@,
        BasicErrorKind::UnsupportedProto => "Unsupported protocol"@,
        BasicErrorKind::UnsupportedMethod => "Unsupported HTTP method"@,
        BasicErrorKind::WritingToDirectory => "File exists and is a directory"@,
        BasicErrorKind::WritingToSymlink => "File exists and is a symlink"@,
        BasicErrorKind::UdpxConnectionClosed => "Trying to read from a closed UdpxStream"@,
    }
}

/// A fixed cause, with an optional note of the occasion.
#[derive(Debug)]
pub struct BasicError {
    pub kind: BasicErrorKind,
    pub detail: Option<String>,
}

impl BasicError {
    /// What this error prints: its fixed text, followed by a colon and the
    /// note where there is one.
    pub open spec fn text(&self) -> Seq<char> {
        match self.detail {
            Some(d) => basic_text(self.kind) + ": "@ + d@,
            None => basic_text(self.kind),
        }
    }

    /// A fixed cause without a note.
    pub fn new(kind: BasicErrorKind) -> (e: BasicError)
        ensures
            e.kind == kind,
            e.detail is None,
    {
        BasicError { kind, detail: None }
    }

    /// A fixed cause with a note.
    pub fn with_detail(kind: BasicErrorKind, detail: &str) -> (e: BasicError)
        ensures
            e.kind == kind,
            e.detail matches Some(d) && d@ == detail@,
    {
        BasicError { kind, detail: Some(String::from_str(detail)) }
    }

    /// What this error prints.
    pub fn message(&self) -> (s: String)
        ensures
            s@ == self.text(),
    {
        let fixed = match self.kind {
            BasicErrorKind::MalformedRequest => "Malformed request",
            BasicErrorKind::UnsupportedProto => "Unsupported protocol",
            BasicErrorKind::UnsupportedMethod => "Unsupported HTTP method",
            BasicErrorKind::WritingToDirectory => "File exists and is a directory",
            BasicErrorKind::WritingToSymlink => "File exists and is a symlink",
            BasicErrorKind::UdpxConnectionClosed => "Trying to read from a closed UdpxStream",
        };
        let s = String::from_str(fixed);
        match &self.detail {
            Some(d) => s.concat(": ").concat(d.as_str()),
            None => s,
        }
    }

    /// This error as a cause for another to wrap.
    pub fn into_source(self) -> (e: SourceError)
        ensures
            e@ == self.text(),
    {
        SourceError { message: self.message() }
    }
}

/// The catch-all error of the server: a message, and the cause if there is
/// one. The factory functions differ only in the message they give.
#[derive(Debug)]
pub struct ServerError {
    src: Option<SourceError>,
    msg: String,
}

impl ServerError {
    /// The message of this error.
    pub closed spec fn text(&self) -> Seq<char> {
        self.msg@
    }

    /// The text of the cause, if there is one.
    pub closed spec fn cause(&self) -> Option<Seq<char>> {
        match self.src {
            Some(e) => Some(e@),
            None => None,
        }
    }

    /// An error without message or cause.
    pub fn new() -> (e: ServerError)
        ensures
            e.text() == Seq::<char>::empty(),
            e.cause() is None,
    {
        ServerError { src: None, msg: String::new() }
    }

    /// The same error with another message.
    pub fn msg(self, msg: &str) -> (e: ServerError)
        ensures
            e.text() == msg@,
            e.cause() == self.cause(),
    {
        ServerError { src: self.src, msg: String::from_str(msg) }
    }

    /// The same error with another cause.
    pub fn wrap(self, err: SourceError) -> (e: ServerError)
        ensures
            e.text() == self.text(),
            e.cause() == Some(err@),
    {
        ServerError { src: Some(err), msg: self.msg }
    }

    /// The error for a request that cannot be read.
    pub fn malformed_request() -> (e: ServerError)
        ensures
            e.text() == wrapping_text(basic_text(BasicErrorKind::MalformedRequest)),
            e.cause() == Some(basic_text(BasicErrorKind::MalformedRequest)),
    {
        ServerError::wrap_err(BasicError::new(BasicErrorKind::MalformedRequest).into_source())
    }

    /// The error for a request in a protocol that is not served.
    pub fn unsupported_proto() -> (e: ServerError)
        ensures
            e.text() == wrapping_text(basic_text(BasicErrorKind::UnsupportedProto)),
            e.cause() == Some(basic_text(BasicErrorKind::UnsupportedProto)),
    {
        ServerError::wrap_err(BasicError::new(BasicErrorKind::UnsupportedProto).into_source())
    }

    /// The error for a request with a method that is not served.
    pub fn unsupported_method() -> (e: ServerError)
        ensures
            e.text() == wrapping_text(basic_text(BasicErrorKind::UnsupportedMethod)),
            e.cause() == Some(basic_text(BasicErrorKind::UnsupportedMethod)),
    {
        ServerError::wrap_err(BasicError::new(BasicErrorKind::UnsupportedMethod).into_source())
    }

    /// The error for an upload whose target is a directory.
    pub fn writing_to_directory() -> (e: ServerError)
        ensures
            e.text() == wrapping_text(basic_text(BasicErrorKind::WritingToDirectory)),
            e.cause() == Some(basic_text(BasicErrorKind::WritingToDirectory)),
    {
        ServerError::wrap_err(BasicError::new(BasicErrorKind::WritingToDirectory).into_source())
    }

    /// The error for an upload whose target is a symbolic link.
    pub fn writing_to_symlink() -> (e: ServerError)
        ensures
            e.text() == wrapping_text(basic_text(BasicErrorKind::WritingToSymlink)),
            e.cause() == Some(basic_text(BasicErrorKind::WritingToSymlink)),
    {
        ServerError::wrap_err(BasicError::new(BasicErrorKind::WritingToSymlink).into_source())
    }

    /// An error that wraps `err` and says so in its message.
    pub fn wrapping(err: SourceError) -> (e: ServerError)
        ensures
            e.text() == wrapping_text(err@),
            e.cause() == Some(err@),
    {
        let msg = String::from_str(SERVER_ERROR_NAME).concat(": ").concat(err.message.as_str());
        ServerError { src: Some(err), msg }
    }

    /// An error that wraps `err` and says so in its message.
    pub fn wrap_err(err: SourceError) -> (e: ServerError)
        ensures
            e.text() == wrapping_text(err@),
            e.cause() == Some(err@),
    {
        ServerError::wrapping(err)
    }

    /// What this error prints: its message.
    pub fn message(&self) -> (s: String)
        ensures
            s@ == self.text(),
    {
        self.msg.clone()
    }

    /// The text of the cause, if there is one.
    pub fn source(&self) -> (s: Option<String>)
        ensures
            match s {
                Some(t) => self.cause() == Some(t@),
                None => self.cause() is None,
            },
    {
        match &self.src {
            Some(e) => Some(e.message.clone()),
            None => None,
        }
    }
}

/// The message of an error that wraps a cause with the text `cause`.
pub open spec fn wrapping_text(cause: Seq<char>) -> Seq<char> {
    SERVER_ERROR_NAME@ + ": "@ + cause
}

impl Default for ServerError {
    fn default() -> (e: ServerError)
        ensures
            e.text() == Seq::<char>::empty(),
            e.cause() is None,
    {
        ServerError::new()
    }
}

/// The error of the request parser: the text of what went wrong.
#[derive(Debug)]
pub struct HttpParseError(pub String);

impl HttpParseError {
    /// The parse error that stands for `e`.
    pub fn from(e: &SourceError) -> (r: HttpParseError)
        ensures
            r.0@ == e@,
    {
        HttpParseError(e.message.clone())
    }

    /// What this error prints: its name, a colon, and its text.
    pub fn message(&self) -> (s: String)
        ensures
            s@ == HTTP_PARSE_ERROR_NAME@ + ": "@ + self.0@,
    {
        String::from_str(HTTP_PARSE_ERROR_NAME).concat(": ").concat(self.0.as_str())
    }
}

} // verus!
