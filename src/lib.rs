//! A single-node object store: buckets of named blobs, a catalog that
//! records each blob's location and content hash, and the integrity checks
//! that keep the two in agreement.

pub mod bucket;
pub mod catalog;
pub mod etag;
pub mod laws;
pub mod object;
pub mod s3_service;
pub mod storage;
pub mod structs;

pub use bucket::BucketError;
pub use object::Object;
pub use s3_service::S3Error;
pub use storage::Storage;
pub use storage::StorageError;
