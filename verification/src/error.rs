//! The error type shared by every part of the library.

use vstd::prelude::*;
use vstd::string::StringExecFns;

verus! {

/// What went wrong below the protocol: in the transport, or in a byte buffer
/// that stands for it.
#[derive(Debug, Clone, Copy, PartialEq, Eq, Structural)]
pub enum IoError {
    /// The input ended in the middle of a record.
    UnexpectedEof,
    /// The input is not what its format allows (a corrupt compressed stream).
    InvalidData,
    /// Any other failure of the transport.
    Other,
}

/// The ways in which a session fails.
#[derive(Debug)]
pub enum Error {
    /// The transport failed.
    Io(IoError),
    /// A value on the wire lies outside what the protocol defines; the text names the field.
    Unexpected(&'static str),
    /// The server refused the connection and gave this reason.
    Server(String),
    /// The server offered no authentication method that the caller accepts.
    AuthenticationUnavailable,
    /// The server rejected the credentials, with this reason (empty before protocol 3.8).
    AuthenticationFailure(String),
    /// The peer closed the connection at a message boundary.
    Disconnected,
}

/// The model of an `Error`: the same, with its texts as sequences of characters.
pub enum ErrorView {
    Io(IoError),
    Unexpected(&'static str),
    Server(Seq<char>),
    AuthenticationUnavailable,
    AuthenticationFailure(Seq<char>),
    Disconnected,
}

impl View for Error {
    type V = ErrorView;

    open spec fn view(&self) -> ErrorView {
        match *self {
            Error::Io(inner) => ErrorView::Io(inner),
            Error::Unexpected(field) => ErrorView::Unexpected(field),
            Error::Server(reason) => ErrorView::Server(reason@),
            Error::AuthenticationUnavailable => ErrorView::AuthenticationUnavailable,
            Error::AuthenticationFailure(reason) => ErrorView::AuthenticationFailure(reason@),
            Error::Disconnected => ErrorView::Disconnected,
        }
    }
}

impl IoError {
    /// A short fixed text for the kind of failure.
    pub open spec fn spec_description(self) -> &'static str {
        match self {
            IoError::UnexpectedEof => "unexpected end of file",
            IoError::InvalidData => "invalid data",
            IoError::Other => "other error",
        }
    }

    /// A short fixed text for the kind of failure.
    pub fn description(&self) -> (text: &'static str)
        ensures
            text == self.spec_description(),
    {
        match self {
            IoError::UnexpectedEof => "unexpected end of file",
            IoError::InvalidData => "invalid data",
            IoError::Other => "other error",
        }
    }
}

impl Error {
    /// The fixed text that names the variant (for `Io`, the text of the failure below).
    pub open spec fn spec_description(self) -> &'static str {
        match self {
            Error::Io(inner) => inner.spec_description(),
            Error::Unexpected(_) => "unexpected value",
            Error::Server(_) => "server error",
            Error::AuthenticationUnavailable => "authentication unavailable",
            Error::AuthenticationFailure(_) => "authentication failure",
            Error::Disconnected => "peer disconnected",
        }
    }

    /// The text shown to a user: the description, with the detail that the variant carries.
    pub open spec fn spec_message(self) -> Seq<char> {
        match self {
            Error::Unexpected(field) => "unexpected "@ + field@,
            Error::Server(reason) => "server error: "@ + reason@,
            Error::AuthenticationFailure(reason) => "authentication failure: "@ + reason@,
            _ => self.spec_description()@,
        }
    }

    /// The transport failure behind this error, if there is one.
    pub open spec fn spec_cause(self) -> Option<IoError> {
        match self {
            Error::Io(inner) => Some(inner),
            _ => None,
        }
    }

    /// The fixed text that names the variant.
    pub fn description(&self) -> (text: &'static str)
        ensures
            text == self.spec_description(),
    {
        match self {
            Error::Io(inner) => inner.description(),
            Error::Unexpected(_) => "unexpected value",
            Error::Server(_) => "server error",
            Error::AuthenticationUnavailable => "authentication unavailable",
            Error::AuthenticationFailure(_) => "authentication failure",
            Error::Disconnected => "peer disconnected",
        }
    }

    /// The text shown to a user.
    pub fn message(&self) -> (text: String)
        ensures
            text@ == self.spec_message(),
    {
        match self {
            Error::Unexpected(field) => String::from_str("unexpected ").concat(field),
            Error::Server(reason) => String::from_str("server error: ").concat(reason.as_str()),
            Error::AuthenticationFailure(reason) => String::from_str(
                "authentication failure: ",
            ).concat(reason.as_str()),
            _ => String::from_str(self.description()),
        }
    }

    /// Whether the error says that the input was too short: more input may
    /// let the same read succeed.
    pub open spec fn spec_is_short(self) -> bool {
        self is Disconnected || self == Error::Io(IoError::UnexpectedEof)
    }

    /// Whether the error says that the input was too short.
    pub fn is_short(&self) -> (short: bool)
        ensures
            short == self.spec_is_short(),
    {
        match self {
            Error::Disconnected => true,
            Error::Io(IoError::UnexpectedEof) => true,
            _ => false,
        }
    }

    /// The error of a stream that has ended while `pending` bytes of it were
    /// read and not used: a clean disconnect at a message boundary, else a
    /// message that broke off.
    pub fn at_end_of_stream(pending: usize) -> (error: Error)
        ensures
            error == (if pending == 0 {
                Error::Disconnected
            } else {
                Error::Io(IoError::UnexpectedEof)
            }),
    {
        if pending == 0 {
            Error::Disconnected
        } else {
            Error::Io(IoError::UnexpectedEof)
        }
    }

    /// The transport failure behind this error, if there is one.
    pub fn cause(&self) -> (inner: Option<IoError>)
        ensures
            inner == self.spec_cause(),
    {
        match self {
            Error::Io(inner) => Some(*inner),
            _ => None,
        }
    }
}

impl From<IoError> for Error {
    fn from(error: IoError) -> (e: Error) {
        Error::Io(error)
    }
}

impl vstd::std_specs::convert::FromSpecImpl<IoError> for Error {
    open spec fn obeys_from_spec() -> bool {
        true
    }

    open spec fn from_spec(error: IoError) -> Error {
        Error::Io(error)
    }
}

} // verus!
