//! The bodies of the service's replies, as plain values.

use crate::object::Object;
use vstd::prelude::*;

verus! {

/// A list of bucket names or object keys.
pub struct ListResponse {
    pub items: Vec<String>,
}

pub struct BucketCreatedResponse {
    pub name: String,
    pub message: String,
}

pub struct BucketDeletedResponse {
    pub message: String,
    pub bucket: String,
}

/// The reply to a put: the object as now stored.
pub struct ObjectCreatedResponse<'a> {
    pub name: String,
    pub bucket: String,
    pub metadata: &'a Object,
    pub message: String,
}

pub struct ObjectDeletedResponse {
    pub name: String,
    pub bucket: String,
    pub message: String,
}

pub struct ObjectListResponse {
    pub bucket: String,
    pub items: Vec<String>,
}

pub struct ErrorResponse {
    pub message: String,
}

} // verus!
