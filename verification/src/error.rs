//! The failures that loading and saving a store can report.

use vstd::prelude::*;

verus! {

/// Why a load or a save did not go through.
#[derive(Clone, Copy, Debug, PartialEq, Eq, Structural)]
pub enum TaskError {
    /// The file could not be opened, read or written.
    Io,
    /// The bytes are not UTF-8, or the text is not a hexadecimal blob.
    Encoding,
    /// The cipher refused: wrong passphrase, or the blob was altered.
    Crypto,
    /// The table is malformed: header, field count, id, priority or flag.
    Format,
}

impl TaskError {
    /// The text that stands for each failure.
    pub open spec fn label(self) -> Seq<char> {
        match self {
            TaskError::Io => "IO error"@,
            TaskError::Encoding => "Encoding error"@,
            TaskError::Crypto => "Crypto error"@,
            TaskError::Format => "Format error"@,
        }
    }

    /// A short description of the failure, for the user.
    pub fn message(&self) -> (r: &'static str)
        ensures
            r@ == self.label(),
    {
        match self {
            TaskError::Io => "IO error",
            TaskError::Encoding => "Encoding error",
            TaskError::Crypto => "Crypto error",
            TaskError::Format => "Format error",
        }
    }
}

/// Whether an executable result of bytes is the given abstract result.
pub open spec fn bytes_result_is(r: Result<Vec<u8>, TaskError>, m: Result<Seq<u8>, TaskError>) -> bool {
    match r {
        Ok(v) => m == Ok::<Seq<u8>, TaskError>(v@),
        Err(e) => m == Err::<Seq<u8>, TaskError>(e),
    }
}

/// Whether an executable result of text is the given abstract result.
pub open spec fn text_result_is(r: Result<String, TaskError>, m: Result<Seq<char>, TaskError>) -> bool {
    match r {
        Ok(s) => m == Ok::<Seq<char>, TaskError>(s@),
        Err(e) => m == Err::<Seq<char>, TaskError>(e),
    }
}

} // verus!
