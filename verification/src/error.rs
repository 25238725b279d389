//! Errors of the datastore.
use vstd::prelude::*;
use vstd::string::StringExecFns;

verus! {

/// `std::io::Error`, which the library carries from the disk to the caller.
#[verifier::external_type_specification]
#[verifier::external_body]
pub struct ExIoError(std::io::Error);

/// What can go wrong in a call on a datastore.
#[derive(Debug)]
pub enum Error {
    /// A call to the file system failed.
    Io(std::io::Error),
    /// Another handle already has the directory open for writing.
    AlreadyLocked,
    /// The key has no bytes.
    EmptyKey,
    /// A data or hint file is damaged in a way that no interrupted write explains.
    Corrupt(String),
    /// A call that writes was made on a handle that was opened for reading only.
    ReadOnly,
    /// The call names a part of the design that is not there yet.
    NotImplemented(&'static str),
}

/// Whether `text` is the message of `error`.
pub open spec fn is_message(error: Error, text: Seq<char>) -> bool {
    match error {
        Error::Io(e) => exists|inner: String|
            vstd::string::to_string_from_display_ensures(&e, inner) && text == "io error: "@
                + #[trigger] inner@,
        Error::AlreadyLocked => text == "directory already locked for writing by another handle"@,
        Error::EmptyKey => text == "key must not be empty"@,
        Error::Corrupt(message) => text == "data file corrupt: "@ + message@,
        Error::ReadOnly => text == "datastore is not open for writing (read-only handle)"@,
        Error::NotImplemented(what) => text == "not implemented yet: "@ + what@,
    }
}

impl Error {
    /// The message for a person.
    pub fn to_string(&self) -> (text: String)
        ensures
            is_message(*self, text@),
    {
        match self {
            Error::Io(e) => {
                let inner = e.to_string();
                String::from_str("io error: ").concat(inner.as_str())
            },
            Error::AlreadyLocked => String::from_str(
                "directory already locked for writing by another handle",
            ),
            Error::EmptyKey => String::from_str("key must not be empty"),
            Error::Corrupt(message) => String::from_str("data file corrupt: ").concat(
                message.as_str(),
            ),
            Error::ReadOnly => String::from_str(
                "datastore is not open for writing (read-only handle)",
            ),
            Error::NotImplemented(what) => String::from_str("not implemented yet: ").concat(what),
        }
    }

    /// The failure of the file system behind this error, if there is one.
    pub fn source(&self) -> (inner: Option<&std::io::Error>)
        ensures
            inner == match *self {
                Error::Io(e) => Some(&e),
                _ => None,
            },
    {
        match self {
            Error::Io(e) => Some(e),
            _ => None,
        }
    }
}

impl From<std::io::Error> for Error {
    fn from(e: std::io::Error) -> (error: Self) {
        Error::Io(e)
    }
}

impl vstd::std_specs::convert::FromSpecImpl<std::io::Error> for Error {
    open spec fn obeys_from_spec() -> bool {
        true
    }

    open spec fn from_spec(e: std::io::Error) -> Error {
        Error::Io(e)
    }
}

} // verus!
