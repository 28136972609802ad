use vstd::prelude::*;

verus! {

/// The errors reported by the table.
#[derive(Debug, PartialEq, Eq, Structural)]
pub enum RcuError {
    /// The sizing parameters of a new table were rejected.
    InvalidParameters,
    /// The key is not in the table.
    NotFound,
    /// The store failed to unlink an entry that a lookup had just found;
    /// the code is the store's own.
    DeleteError(i32),
}

} // verus!
