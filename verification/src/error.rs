//! The protocol's error taxonomy and the one-line text reported to a client.

use vstd::prelude::*;

verus! {

/// Everything that can go wrong while handling one line of input.
///
/// The first six variants are parse errors: they are reported back to the
/// offending client and the connection stays open.  `IO` stands for a failed
/// socket operation; a read failure ends the connection's session.
#[derive(Debug, Clone, Copy, PartialEq, Eq, Structural)]
pub enum Error {
    InvalidInput,
    UnknownCommand,
    InvalidUuid,
    MissingArgument,
    InvalidUserKind,
    MissingUserName,
    MissingCommandName,
    IO,
}

/// The text a client is shown for each error, as a sequence of characters.
pub open spec fn error_text(e: Error) -> Seq<char> {
    match e {
        Error::InvalidInput => "invalid or empty input"@,
        Error::InvalidUuid => "invalid uuid"@,
        Error::MissingArgument => "missing argument"@,
        Error::UnknownCommand => "unknown command"@,
        Error::InvalidUserKind => "invalid user kind"@,
        Error::MissingUserName => "missing user name"@,
        Error::MissingCommandName => "missing command name"@,
        Error::IO => "input/output error"@,
    }
}

impl Error {
    /// The single line of text describing this error.
    pub fn message(&self) -> (r: String)
        ensures
            r@ == error_text(*self),
    {
        match self {
            Error::InvalidInput => "invalid or empty input".to_owned(),
            Error::InvalidUuid => "invalid uuid".to_owned(),
            Error::MissingArgument => "missing argument".to_owned(),
            Error::UnknownCommand => "unknown command".to_owned(),
            Error::InvalidUserKind => "invalid user kind".to_owned(),
            Error::MissingUserName => "missing user name".to_owned(),
            Error::MissingCommandName => "missing command name".to_owned(),
            Error::IO => "input/output error".to_owned(),
        }
    }
}

} // verus!
