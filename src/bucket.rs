//! Errors of operations scoped to one bucket.

use crate::object::ObjectError;
use crate::storage::StorageError;
use vstd::prelude::*;

verus! {

/// Failure of an operation on the objects of a bucket.
#[derive(Debug)]
pub enum BucketError {
    /// The storage engine failed.
    Storage(StorageError),
    /// The object could not be built.
    ObjectDataError(ObjectError),
}

} // verus!
