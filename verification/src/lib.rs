//! Bounded, depth-limited directory enumeration.
//!
//! The library holds the verified core of a directory listing tool: a
//! work-stack traversal state machine, deterministic sorting of the collected
//! entries, pagination over the sorted set, and rendering of each selected
//! entry as one ordinal-tagged text line.  All filesystem reads are performed
//! by the caller, which feeds the raw directory contents into the state
//! machine as plain values.

pub mod entry;
pub mod kind;
pub mod laws;
pub mod order;
pub mod paginate;
pub mod render;
pub mod traverse;

use vstd::prelude::*;

use crate::paginate::ListDirError;
use crate::paginate::spec_validated;

verus! {

/// The directory-listing request handler: validation of the request fields
/// before any filesystem work begins.  The caller performs the filesystem
/// reads through [`crate::traverse::Traversal`] and hands the collected
/// entries to [`crate::paginate::list_dir_slice`].
pub struct ListDirHandler;

impl ListDirHandler {
    /// Checks the request fields in order: the 1-indexed pagination offset,
    /// the page size and the depth bound must all be at least 1, and the
    /// requested path must be absolute (`path_absolute` reports what the
    /// caller's platform said of it).  Returns the first failure, if any.
    pub fn validate_args(offset: usize, limit: usize, depth: usize, path_absolute: bool) -> (r:
        Result<(), ListDirError>)
        ensures
            r == spec_validated(offset as int, limit as int, depth as int, path_absolute),
            r is Ok <==> offset >= 1 && limit >= 1 && depth >= 1 && path_absolute,
    {
        if offset == 0 {
            Err(ListDirError::InvalidOffset)
        } else if limit == 0 {
            Err(ListDirError::InvalidLimit)
        } else if depth == 0 {
            Err(ListDirError::InvalidDepth)
        } else if !path_absolute {
            Err(ListDirError::PathNotAbsolute)
        } else {
            Ok(())
        }
    }
}

/// Pagination offset used when the request does not give one (1-indexed).
pub fn default_offset() -> (r: usize)
    ensures
        r == 1,
{
    1
}

/// Page size used when the request does not give one.
pub fn default_limit() -> (r: usize)
    ensures
        r == 2000,
{
    2000
}

/// Traversal depth used when the request does not give one.
pub fn default_depth() -> (r: usize)
    ensures
        r == 2,
{
    2
}

} // verus!
