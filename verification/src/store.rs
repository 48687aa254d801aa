//! Errors of reading and writing the bot's data files.

use vstd::prelude::*;

verus! {

/// Why a data file could not be read or written.
#[derive(Debug, Clone, Copy, PartialEq, Eq)]
pub enum DataError {
    /// The text is not a valid document of the expected shape.
    Parse,
    /// The data could not be written as a document.
    Serialize,
}

} // verus!
