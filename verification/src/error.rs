//! Errors of the hex printer.

use vstd::prelude::*;
use vstd::string::to_string_from_display_ensures;

use crate::text::{decimal, decimal_text};

verus! {

/// `std::io::Error`, carried inside [`HexlerError::Io`] and never looked into.
#[verifier::external_type_specification]
#[verifier::external_body]
pub struct ExIoError(std::io::Error);

/// `minus::error::MinusError`, carried inside [`HexlerError::Pager`] and never looked into.
#[verifier::external_type_specification]
#[verifier::external_body]
pub struct ExMinusError(minus::error::MinusError);

/// What can go wrong while dumping.
#[derive(Debug)]
pub enum HexlerError {
    /// The number of bytes per line is not a multiple of 8, or is below 8.
    InvalidBytesPerLine(usize),
    /// Reading or writing failed.
    Io(std::io::Error),
    /// The pager could not be set up or could not show the dump.
    Pager(minus::error::MinusError),
    /// The width of the terminal could not be determined.
    TerminalSizeError,
}

/// A result whose error is a [`HexlerError`].
pub type Result<T> = std::result::Result<T, HexlerError>;

impl From<std::io::Error> for HexlerError {
    fn from(error: std::io::Error) -> (r: HexlerError)
        ensures
            r == HexlerError::Io(error),
    {
        HexlerError::Io(error)
    }
}

impl vstd::std_specs::convert::FromSpecImpl<std::io::Error> for HexlerError {
    open spec fn obeys_from_spec() -> bool {
        true
    }

    open spec fn from_spec(error: std::io::Error) -> HexlerError {
        HexlerError::Io(error)
    }
}

impl From<minus::error::MinusError> for HexlerError {
    fn from(error: minus::error::MinusError) -> (r: HexlerError)
        ensures
            r == HexlerError::Pager(error),
    {
        HexlerError::Pager(error)
    }
}

impl vstd::std_specs::convert::FromSpecImpl<minus::error::MinusError> for HexlerError {
    open spec fn obeys_from_spec() -> bool {
        true
    }

    open spec fn from_spec(error: minus::error::MinusError) -> HexlerError {
        HexlerError::Pager(error)
    }
}

/// The message for an I/O error that describes itself as `detail`.
pub fn io_message(detail: &str) -> (message: String)
    ensures
        message@ == "IO error: "@ + detail@,
{
    "IO error: ".to_owned().concat(detail)
}

/// The message for a pager error that describes itself as `detail`.
pub fn pager_message(detail: &str) -> (message: String)
    ensures
        message@ == "pager error: "@ + detail@,
{
    "pager error: ".to_owned().concat(detail)
}

impl HexlerError {
    /// Whether `message` is what this error is shown as. What stands behind the prefixes of I/O and
    /// pager errors is what `to_string` makes of the errors inside.
    pub open spec fn shown_as(&self, message: Seq<char>) -> bool {
        match self {
            HexlerError::InvalidBytesPerLine(n) => message
                == "bytes per line must be a multiple of 8 with a minimum of 8, got "@
                + decimal_text(*n as nat),
            HexlerError::Io(error) => exists|detail: String|
                #[trigger] to_string_from_display_ensures::<std::io::Error>(error, detail)
                    && message == "IO error: "@ + detail@,
            HexlerError::Pager(error) => exists|detail: String|
                #[trigger] to_string_from_display_ensures::<minus::error::MinusError>(error, detail)
                    && message == "pager error: "@ + detail@,
            HexlerError::TerminalSizeError => message == "failed to determine terminal width"@,
        }
    }

    /// The error as a message for the user.
    pub fn to_string(&self) -> (message: String)
        ensures
            self.shown_as(message@),
    {
        match self {
            HexlerError::InvalidBytesPerLine(n) => {
                let number = decimal(*n);
                "bytes per line must be a multiple of 8 with a minimum of 8, got ".to_owned().concat(
                    number.as_str(),
                )
            },
            HexlerError::Io(error) => io_message(error.to_string().as_str()),
            HexlerError::Pager(error) => pager_message(error.to_string().as_str()),
            HexlerError::TerminalSizeError => "failed to determine terminal width".to_owned(),
        }
    }
}

} // verus!
