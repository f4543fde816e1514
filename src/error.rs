//! Why an import stops before anything is sent.

use vstd::prelude::*;

verus! {

/// A fatal condition of an import run.
#[derive(Clone, Copy, Debug, PartialEq, Eq)]
pub enum ImportError {
    /// The input file could not be opened or read.
    SourceUnreadable,
    /// The file has no header, or a data row has another number of cells than the header.
    MalformedInput,
    /// The configured tag column is not a name of the header.
    TagColumnNotFound,
}

} // verus!
