//! The object: a key, its bytes, and the metadata that travels with them.

use std::collections::HashMap;
use std::time::{Duration, SystemTime, SystemTimeError};
use vstd::prelude::*;

verus! {

#[verifier::external_type_specification]
#[verifier::external_body]
pub struct ExSystemTime(SystemTime);

#[verifier::external_type_specification]
#[verifier::external_body]
pub struct ExSystemTimeError(SystemTimeError);

/// An object stored in a bucket: its key (unique within the bucket), its
/// bytes, and its metadata.
#[derive(Debug, Clone)]
pub struct Object {
    pub key: String,
    pub data: Vec<u8>,
    pub content_type: Option<String>,
    /// Hash of `data`, set once the object has been read back from storage.
    pub etag: Option<String>,
    /// Seconds since the Unix epoch.
    pub last_modified: i64,
    pub user_metadata: Option<HashMap<String, String>>,
}

/// Failure to build an object.
#[derive(Debug)]
pub enum ObjectError {
    /// The system clock reads earlier than the Unix epoch.
    SystemTime(SystemTimeError),
}

/// Relies on `SystemTime::now` for the current time of the system clock.
#[verifier::external_body]
pub(crate) fn system_now() -> (r: SystemTime) {
    SystemTime::now()
}

/// Relies on `SystemTime::duration_since(UNIX_EPOCH)` for the time from the
/// Unix epoch to `t`; it fails when `t` is earlier than the epoch.
#[verifier::external_body]
pub(crate) fn since_epoch(t: &SystemTime) -> (r: Result<Duration, SystemTimeError>) {
    t.duration_since(SystemTime::UNIX_EPOCH)
}

/// Relies on `Duration::as_secs` for the whole seconds of a duration.
#[verifier::external_body]
pub(crate) fn whole_seconds(d: &Duration) -> (r: u64) {
    d.as_secs()
}

/// A count of whole seconds since the Unix epoch as a signed timestamp,
/// clamped to `i64::MAX`.
pub open spec fn timestamp_of(secs: u64) -> i64 {
    if secs <= i64::MAX as u64 {
        secs as i64
    } else {
        i64::MAX
    }
}

/// Converts whole seconds since the Unix epoch into a timestamp.
pub fn timestamp_from_seconds(secs: u64) -> (r: i64)
    ensures
        r == timestamp_of(secs),
        r >= 0,
{
    if secs <= i64::MAX as u64 {
        secs as i64
    } else {
        i64::MAX
    }
}

/// Reads the clock: whole seconds since the Unix epoch, or the error of a
/// clock that reads earlier than the epoch.
pub(crate) fn clock_seconds() -> (r: Result<u64, SystemTimeError>) {
    let now = system_now();
    match since_epoch(&now) {
        Ok(elapsed) => Ok(whole_seconds(&elapsed)),
        Err(e) => Err(e),
    }
}

impl Object {
    /// Creates an object from a reading of the clock (whole seconds since
    /// the Unix epoch, or the error of a clock that reads earlier); it has no
    /// ETag until storage computes one.
    pub fn stamped(
        key: String,
        data: Vec<u8>,
        content_type: Option<String>,
        user_metadata: Option<HashMap<String, String>>,
        since_epoch: Result<u64, SystemTimeError>,
    ) -> (r: Result<Object, ObjectError>)
        ensures
            since_epoch matches Ok(secs) ==> (r matches Ok(o) && o == (Object {
                key,
                data,
                content_type,
                etag: None,
                last_modified: timestamp_of(secs),
                user_metadata,
            })),
            since_epoch matches Err(e) ==> (r matches Err(ObjectError::SystemTime(e2)) && e2 == e),
    {
        match since_epoch {
            Ok(secs) => Ok(
                Object {
                    key,
                    data,
                    content_type,
                    etag: None,
                    last_modified: timestamp_from_seconds(secs),
                    user_metadata,
                },
            ),
            Err(e) => Err(ObjectError::SystemTime(e)),
        }
    }

    /// Creates an object stamped with the current time; it has no ETag until
    /// storage computes one. Fails if the clock reads earlier than the epoch.
    pub fn new(
        key: String,
        data: Vec<u8>,
        content_type: Option<String>,
        user_metadata: Option<HashMap<String, String>>,
    ) -> (r: Result<Object, ObjectError>)
        ensures
            r matches Ok(o) ==> {
                &&& o.key == key
                &&& o.data == data
                &&& o.content_type == content_type
                &&& o.etag is None
                &&& o.last_modified >= 0
                &&& o.user_metadata == user_metadata
            },
    {
        Object::stamped(key, data, content_type, user_metadata, clock_seconds())
    }

    /// The size of the object's data in bytes.
    pub fn size(&self) -> (r: usize)
        ensures
            r == self.data@.len(),
    {
        self.data.len()
    }
}

} // verus!
