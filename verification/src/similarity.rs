//! Checks a similarity-search index makes on what it is given.
use vstd::prelude::*;

use crate::error::FossicError;

verus! {

/// An index is configured with at least one dimension.
pub fn check_index_dimensions(dimensions: usize) -> (r: Result<(), FossicError>)
    ensures
        match r {
            Ok(()) => dimensions > 0,
            Err(FossicError::InvalidDimensions { expected, got }) => dimensions == 0 && expected
                == 1 && got == 0,
            _ => false,
        },
{
    if dimensions == 0 {
        return Err(FossicError::InvalidDimensions { expected: 1, got: 0 });
    }
    Ok(())
}

/// An embedding handed to an index of `expected` dimensions has exactly that many.
pub fn check_embedding_len(expected: usize, got: usize) -> (r: Result<(), FossicError>)
    ensures
        match r {
            Ok(()) => got == expected,
            Err(FossicError::InvalidDimensions { expected: e, got: g }) => got != expected && e
                == expected && g == got,
            _ => false,
        },
{
    if got != expected {
        return Err(FossicError::InvalidDimensions { expected, got });
    }
    Ok(())
}

} // verus!
