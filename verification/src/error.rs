//! What can go wrong.

use vstd::prelude::*;

use crate::text::{decimal, decimal_text, joined};

verus! {

/// `std::io::Error`, an error of the transport.
#[verifier::external_type_specification]
#[verifier::external_body]
pub struct ExIoError(std::io::Error);

/// The kinds of I/O error that the library tells apart.
#[derive(Clone, Copy, Debug, PartialEq, Eq, Structural)]
pub enum IoKind {
    /// `std::io::ErrorKind::InvalidData`: what came in is malformed.
    InvalidData,
    /// `std::io::ErrorKind::InvalidInput`: what was handed over is not allowed.
    InvalidInput,
    /// Any other kind.
    Other,
}

/// The kind of an I/O error.
pub uninterp spec fn io_kind(error: std::io::Error) -> IoKind;

/// The kind of an I/O error.
///
/// Calls `std::io::Error::kind`. Trusted: an error keeps the kind that it was
/// made with.
#[verifier::external_body]
pub(crate) fn kind_of_io(error: &std::io::Error) -> (kind: IoKind)
    ensures
        kind == io_kind(*error),
{
    match error.kind() {
        std::io::ErrorKind::InvalidData => IoKind::InvalidData,
        std::io::ErrorKind::InvalidInput => IoKind::InvalidInput,
        _ => IoKind::Other,
    }
}

/// All errors that the library hands to an application.
#[derive(Debug)]
pub enum Error {
    /// An I/O error from the transport.
    Io(std::io::Error),
    /// The payload does not fit into a single frame.
    PayloadTooLarge {
        /// The size of the payload, in bytes.
        size: usize,
        /// The largest size that fits, in bytes.
        max: usize,
    },
    /// The application outbox has no room left.
    AppOutboxFull,
    /// The node is shutting down.
    ShuttingDown,
    /// The node has no listener.
    NoListener,
}

/// What the operating system or the transport says of an I/O error.
///
/// Calls `<std::io::Error as ToString>::to_string`. Nothing is claimed of the
/// text: it rests on the platform and its language settings.
#[verifier::external_body]
fn io_text(error: &std::io::Error) -> (text: String) {
    error.to_string()
}

/// Whether `text` is what the operating system or the transport says of an I/O error
/// when it is asked.
pub closed spec fn reads(error: std::io::Error, text: Seq<char>) -> bool {
    exists|said: String| call_ensures(io_text, (&error,), said) && #[trigger] said@ == text
}

/// The text of an error whose cause, if it is an I/O error, reads `cause`.
pub open spec fn error_text(error: Error, cause: Seq<char>) -> Seq<char> {
    match error {
        Error::Io(_) => "I/O error: "@ + cause,
        Error::PayloadTooLarge { size, max } => "payload too large: "@ + decimal(size as nat)
            + " bytes, maximum is "@ + decimal(max as nat),
        Error::AppOutboxFull => {
            "application outbox is full; the cover rate is too low for the current publish rate"@
        },
        Error::ShuttingDown => "node is shutting down"@,
        Error::NoListener => "expected listener, but the node is not configured to listen"@,
    }
}

impl Error {
    /// The text of this error, where an I/O error reads `cause`.
    pub fn text_with_cause(&self, cause: &str) -> (text: String)
        ensures
            text@ == error_text(*self, cause@),
            match *self {
                Error::Io(_) => text@ == "I/O error: "@ + cause@,
                Error::PayloadTooLarge { size, max } => text@ == "payload too large: "@ + decimal(
                    size as nat,
                ) + " bytes, maximum is "@ + decimal(max as nat),
                Error::AppOutboxFull => text@
                    == "application outbox is full; the cover rate is too low for the current publish rate"@,
                Error::ShuttingDown => text@ == "node is shutting down"@,
                Error::NoListener => text@
                    == "expected listener, but the node is not configured to listen"@,
            },
    {
        match self {
            Error::Io(_) => {
                let mut text = "I/O error: ".to_owned();
                text.append(cause);
                text
            },
            Error::PayloadTooLarge { size, max } => {
                joined(
                    "payload too large: ",
                    decimal_text(*size).as_str(),
                    " bytes, maximum is ",
                    decimal_text(*max).as_str(),
                )
            },
            Error::AppOutboxFull => {
                "application outbox is full; the cover rate is too low for the current publish rate".to_owned()
            },
            Error::ShuttingDown => "node is shutting down".to_owned(),
            Error::NoListener => {
                "expected listener, but the node is not configured to listen".to_owned()
            },
        }
    }

    /// The text of this error, for people to read.
    pub fn to_string(&self) -> (text: String)
        ensures
            exists|cause: Seq<char>| text@ == error_text(*self, cause),
            !(self is Io) ==> text@ == error_text(*self, Seq::empty()),
            match *self {
                Error::Io(error) => exists|cause: Seq<char>| #[trigger]
                    reads(error, cause) && text@ == "I/O error: "@ + cause,
                Error::PayloadTooLarge { size, max } => text@ == "payload too large: "@ + decimal(
                    size as nat,
                ) + " bytes, maximum is "@ + decimal(max as nat),
                Error::AppOutboxFull => text@
                    == "application outbox is full; the cover rate is too low for the current publish rate"@,
                Error::ShuttingDown => text@ == "node is shutting down"@,
                Error::NoListener => text@
                    == "expected listener, but the node is not configured to listen"@,
            },
    {
        match self {
            Error::Io(error) => {
                // Asked through a value, so that the answer is known to be one.
                let ask = io_text;
                let said = ask(error);
                assert(reads(*error, said@));
                self.text_with_cause(said.as_str())
            },
            _ => self.text_with_cause(""),
        }
    }
}

/// The sizes stand in the text of an error as they are, and only what an I/O error
/// reads is taken from its cause.
pub proof fn errors_are_told_in_full(error: Error, cause: Seq<char>)
    ensures
        match error {
            Error::Io(_) => error_text(error, cause) == "I/O error: "@ + cause,
            Error::PayloadTooLarge { size, max } => error_text(error, cause)
                == "payload too large: "@ + decimal(size as nat) + " bytes, maximum is "@ + decimal(
                max as nat,
            ),
            _ => forall|other: Seq<char>| #[trigger]
                error_text(error, other) == error_text(error, cause),
        },
{
}

impl From<std::io::Error> for Error {
    fn from(error: std::io::Error) -> (wrapped: Self)
        ensures
            wrapped == Error::Io(error),
    {
        Error::Io(error)
    }
}

impl vstd::std_specs::convert::FromSpecImpl<std::io::Error> for Error {
    open spec fn obeys_from_spec() -> bool {
        true
    }

    open spec fn from_spec(error: std::io::Error) -> Self {
        Error::Io(error)
    }
}

} // verus!
