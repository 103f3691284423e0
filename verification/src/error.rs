//! Error taxonomy of the archive decoder: invalid archive data, I/O-style
//! failures (a read past the end of the backing bytes), and decode failures.

use vstd::prelude::*;

verus! {

/// The error type of every fallible archive operation.
#[derive(Debug)]
pub enum PakError {
    /// The archive bytes are malformed: oversized index, unsupported
    /// compression method, over-length path field, negative entry id,
    /// odd-length UTF-16 input, short block read, or an under-length buffer.
    InvalidData(String),
    /// A read reached past the end of the backing bytes, standing in for the
    /// platform I/O failures of a file-backed reader.
    Io(String),
    /// A decode failure: the compressed payload could not be inflated.
    Other(String),
}

impl PakError {
    /// Builds the `InvalidData` variant from a message.
    pub fn invalid_data(message: &str) -> (r: PakError)
        ensures
            r matches PakError::InvalidData(m) && m@ == message@,
    {
        PakError::InvalidData(message.to_owned())
    }

    /// Builds the `Io` variant from a message.
    pub fn io_error(message: &str) -> (r: PakError)
        ensures
            r matches PakError::Io(m) && m@ == message@,
    {
        PakError::Io(message.to_owned())
    }

    /// Builds the `Other` variant from a message.
    pub fn other(message: &str) -> (r: PakError)
        ensures
            r matches PakError::Other(m) && m@ == message@,
    {
        PakError::Other(message.to_owned())
    }

    /// Reports which variant this error is, as a plain word.
    pub fn kind(&self) -> (r: &'static str)
        ensures
            self is InvalidData ==> r@ == "invalid data"@,
            self is Io ==> r@ == "io"@,
            self is Other ==> r@ == "other"@,
    {
        match self {
            PakError::InvalidData(_) => "invalid data",
            PakError::Io(_) => "io",
            PakError::Other(_) => "other",
        }
    }

    /// Hands out the message carried by the error.
    pub fn message(&self) -> (r: &String)
        ensures
            self matches PakError::InvalidData(m) ==> r@ == m@,
            self matches PakError::Io(m) ==> r@ == m@,
            self matches PakError::Other(m) ==> r@ == m@,
    {
        match self {
            PakError::InvalidData(m) => m,
            PakError::Io(m) => m,
            PakError::Other(m) => m,
        }
    }
}

} // verus!
