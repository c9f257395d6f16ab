//! The caller-facing errors of the service, and how storage failures map to
//! them.

use crate::bucket::BucketError;
use crate::object::ObjectError;
use crate::storage::{Storage, StorageError};
use vstd::prelude::*;

verus! {

/// Errors that the service reports to its callers.
#[derive(Debug)]
pub enum S3Error {
    BucketAlreadyExists(String),
    BucketNotFound(String),
    /// An object (key, bucket) that does not exist.
    ObjectNotFound(String, String),
    ObjectCreationFailed(ObjectError),
    BucketOperationFailed(BucketError),
    /// What the service was doing, and the storage failure that stopped it.
    InternalStorageError(String, StorageError),
}

/// HTTP status codes of the service's replies.
pub const STATUS_NOT_FOUND: u16 = 404;
pub const STATUS_CONFLICT: u16 = 409;
pub const STATUS_INTERNAL_SERVER_ERROR: u16 = 500;

/// Whether a storage failure means that something asked for does not exist.
pub open spec fn storage_not_found(e: StorageError) -> bool {
    e is ObjectNotFound || e is BucketNotFoundInStorage
}

/// The status code with which the service reports an error.
pub open spec fn status_of(e: S3Error) -> u16 {
    match e {
        S3Error::BucketAlreadyExists(_) => STATUS_CONFLICT,
        S3Error::BucketNotFound(_) => STATUS_NOT_FOUND,
        S3Error::ObjectNotFound(_, _) => STATUS_NOT_FOUND,
        S3Error::BucketOperationFailed(BucketError::Storage(s)) => if storage_not_found(s) {
            STATUS_NOT_FOUND
        } else {
            STATUS_INTERNAL_SERVER_ERROR
        },
        _ => STATUS_INTERNAL_SERVER_ERROR,
    }
}

impl S3Error {
    /// The HTTP status code of the error: "not found" for what does not
    /// exist, "conflict" for a bucket that exists already, and "internal
    /// error" for the rest, corrupted data among it.
    pub fn status_code(&self) -> (r: u16)
        ensures
            r == status_of(*self),
    {
        match self {
            S3Error::BucketAlreadyExists(_) => STATUS_CONFLICT,
            S3Error::BucketNotFound(_) => STATUS_NOT_FOUND,
            S3Error::ObjectNotFound(_, _) => STATUS_NOT_FOUND,
            S3Error::ObjectCreationFailed(_) => STATUS_INTERNAL_SERVER_ERROR,
            S3Error::BucketOperationFailed(BucketError::Storage(s)) => match s {
                StorageError::ObjectNotFound(_, _) => STATUS_NOT_FOUND,
                StorageError::BucketNotFoundInStorage(_) => STATUS_NOT_FOUND,
                _ => STATUS_INTERNAL_SERVER_ERROR,
            },
            S3Error::BucketOperationFailed(_) => STATUS_INTERNAL_SERVER_ERROR,
            S3Error::InternalStorageError(_, _) => STATUS_INTERNAL_SERVER_ERROR,
        }
    }

    /// The error of a failed bucket creation: the bucket's existing already
    /// is reported as such, anything else as an internal failure.
    pub fn from_create_bucket(e: StorageError) -> (r: S3Error)
        ensures
            e matches StorageError::BucketAlreadyExistsInStorage(n) ==> r == S3Error::BucketAlreadyExists(
                n,
            ),
            !(e is BucketAlreadyExistsInStorage) ==> (r matches S3Error::InternalStorageError(c, s) && s
                == e && c@ == "Failed to create bucket in storage"@),
    {
        match e {
            StorageError::BucketAlreadyExistsInStorage(n) => S3Error::BucketAlreadyExists(n),
            other => S3Error::InternalStorageError(
                "Failed to create bucket in storage".to_owned(),
                other,
            ),
        }
    }

    /// The error of a failed bucket deletion: a missing bucket is reported
    /// as such, anything else as an internal failure.
    pub fn from_delete_bucket(e: StorageError) -> (r: S3Error)
        ensures
            e matches StorageError::BucketNotFoundInStorage(n) ==> r == S3Error::BucketNotFound(n),
            !(e is BucketNotFoundInStorage) ==> (r matches S3Error::InternalStorageError(c, s) && s
                == e && c@ == "Failed to delete bucket from storage"@),
    {
        match e {
            StorageError::BucketNotFoundInStorage(n) => S3Error::BucketNotFound(n),
            other => S3Error::InternalStorageError(
                "Failed to delete bucket from storage".to_owned(),
                other,
            ),
        }
    }

    /// The error of a failed operation on the objects of a bucket.
    pub fn from_bucket_operation(e: StorageError) -> (r: S3Error)
        ensures
            r == S3Error::BucketOperationFailed(BucketError::Storage(e)),
    {
        S3Error::BucketOperationFailed(BucketError::Storage(e))
    }
}

/// The check that precedes every object operation of the service: the
/// bucket must exist.
pub fn require_bucket(storage: &Storage, name: &str) -> (r: Result<(), S3Error>)
    requires
        storage.wf(),
    ensures
        r is Ok <==> storage@.catalog.buckets.contains(name@),
        r matches Err(e) ==> (e matches S3Error::BucketNotFound(n) && n@ == name@),
{
    if storage.bucket_exists(name) {
        Ok(())
    } else {
        Err(S3Error::BucketNotFound(name.to_owned()))
    }
}

} // verus!
