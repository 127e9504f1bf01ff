//! The ways in which loading a mesh fails, and the policy that decides what a
//! malformed record does.

use vstd::prelude::*;

verus! {

/// Why a mesh could not be loaded.
#[derive(Clone, Copy, Debug, PartialEq, Eq, Structural)]
pub enum LoadError {
    /// The file is missing or cannot be read. The loader works on text that is
    /// already in memory, so only `load_contents` reports this, for a caller
    /// that read nothing.
    Io,
    /// A `v`, `vt`, `vn` or `f` record has the wrong number of tokens, or a
    /// token that is no number of the kind the record asks for.
    MalformedRecord,
    /// A face refers to index 0 or to an index behind the end of its table.
    IndexOutOfRange,
}

/// What a malformed record does to the load.
#[derive(Clone, Copy, Debug, PartialEq, Eq, Structural)]
pub enum Policy {
    /// The load fails with `LoadError::MalformedRecord`.
    Strict,
    /// The record is left out, as if its line were blank, and the load goes on.
    Lenient,
}

/// The view of a result: that of the value, or the error.
pub open spec fn outcome_view<T: View>(r: Result<T, LoadError>) -> Result<T::V, LoadError> {
    match r {
        Ok(v) => Ok(v@),
        Err(e) => Err(e),
    }
}

} // verus!
