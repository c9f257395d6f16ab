//! The storage engine: the one place that changes the catalog and the blob
//! area together, and checks that they agree.

use crate::catalog::{enumerates, opt_view, row_views, views, Catalog, CatalogView, ObjectRow, RowView};
use crate::etag::{calculate_etag, etag_of};
use crate::object::{clock_seconds, timestamp_from_seconds, Object};
use std::collections::HashMap;
use std::time::SystemTimeError;
use vstd::prelude::*;

verus! {

#[verifier::external_type_specification]
#[verifier::external_body]
pub struct ExDatabaseError(rusqlite::Error);

#[verifier::external_type_specification]
#[verifier::external_body]
pub struct ExIoError(std::io::Error);

#[verifier::external_type_specification]
#[verifier::external_body]
pub struct ExJsonError(serde_json::Error);

/// Failures of the catalog, the blob area and the engine over them.
#[derive(Debug)]
pub enum StorageError {
    DatabaseError(rusqlite::Error),
    IoError(std::io::Error),
    SystemTimeError(SystemTimeError),
    JsonError(serde_json::Error),
    TransactionCommitError,
    /// A blob location that the row of another object records already.
    InvalidPath(String),
    /// An object (key, bucket) that the catalog does not hold.
    ObjectNotFound(String, String),
    BucketAlreadyExistsInStorage(String),
    BucketNotFoundInStorage(String),
    /// An object whose bytes no longer hash to its recorded ETag.
    IntegrityError(String),
    /// A catalog row whose blob is missing or does not match it.
    ConsistencyError(String),
}

/// Where the blob of (bucket, key) lives under the storage root.
pub open spec fn blob_location(base: Seq<char>, bucket: Seq<char>, key: Seq<char>) -> Seq<char> {
    base + "/buckets/"@ + bucket + "/"@ + key
}

/// What a get reports when an object's bytes do not hash to its ETag.
pub open spec fn integrity_message(bucket: Seq<char>, key: Seq<char>) -> Seq<char> {
    "ETag mismatch for "@ + bucket + "/"@ + key + " - possible data corruption"@
}

/// What a scan reports when a row's blob is missing.
pub open spec fn missing_message(bucket: Seq<char>, key: Seq<char>, path: Seq<char>) -> Seq<char> {
    "File not found for "@ + bucket + "/"@ + key + " at path "@ + path
}

/// Whether `data` hashes to the ETag that `row` records.
pub open spec fn integrity_holds(row: RowView, data: Seq<u8>) -> bool {
    etag_of(data) == row.etag
}

/// Whether a row and the blob read for it (`None`: missing) disagree.
pub open spec fn violates(row: RowView, blob: Option<Seq<u8>>) -> bool {
    match blob {
        Some(data) => !integrity_holds(row, data),
        None => true,
    }
}

/// What a scan reports for a row and its blob that disagree.
pub open spec fn violation_message(row: RowView, blob: Option<Seq<u8>>) -> Seq<char> {
    match blob {
        Some(_) => integrity_message(row.bucket_name, row.key),
        None => missing_message(row.bucket_name, row.key, row.file_path),
    }
}

/// The row that a put of these values records.
pub open spec fn stored_row(
    base: Seq<char>,
    bucket: Seq<char>,
    key: Seq<char>,
    data: Seq<u8>,
    content_type: Option<Seq<char>>,
    metadata: Option<Seq<char>>,
    last_modified: i64,
) -> RowView {
    RowView {
        bucket_name: bucket,
        key,
        file_path: blob_location(base, bucket, key),
        content_type,
        etag: etag_of(data),
        size: data.len() as u64,
        last_modified,
        metadata,
    }
}

/// The engine as values: the storage root and the catalog.
pub struct StorageView {
    pub base_path: Seq<char>,
    pub catalog: CatalogView,
}

impl StorageView {
    /// Every row records the blob location of its own bucket and key.
    pub open spec fn located(self) -> bool {
        forall|id: (Seq<char>, Seq<char>)| #[trigger]
            self.catalog.objects.contains_key(id) ==> self.catalog.objects[id].file_path
                == blob_location(self.base_path, id.0, id.1)
    }
}

/// The storage engine: the catalog, and the root under which blobs live.
///
/// A put records the row of an object whose blob the caller then writes at
/// the row's location; a caller that works on a copy and keeps it only once
/// the blob and the durable catalog are written never exposes a row whose
/// bytes are missing.
#[derive(Clone)]
pub struct Storage {
    catalog: Catalog,
    base_path: String,
}

impl View for Storage {
    type V = StorageView;

    closed spec fn view(&self) -> StorageView {
        StorageView { base_path: self.base_path@, catalog: self.catalog@ }
    }
}

fn concat(a: String, b: &str) -> (r: String)
    ensures
        r@ == a@ + b@,
{
    let mut a = a;
    a.append(b);
    a
}

/// Builds the blob location of (bucket, key) under `base`.
pub fn blob_path(base: &str, bucket: &str, key: &str) -> (r: String)
    ensures
        r@ == blob_location(base@, bucket@, key@),
{
    let s = concat(base.to_owned(), "/buckets/");
    let s = concat(s, bucket);
    let s = concat(s, "/");
    concat(s, key)
}

fn integrity_text(bucket: &str, key: &str) -> (r: String)
    ensures
        r@ == integrity_message(bucket@, key@),
{
    let s = concat("ETag mismatch for ".to_owned(), bucket);
    let s = concat(s, "/");
    let s = concat(s, key);
    concat(s, " - possible data corruption")
}

fn missing_text(bucket: &str, key: &str, path: &str) -> (r: String)
    ensures
        r@ == missing_message(bucket@, key@, path@),
{
    let s = concat("File not found for ".to_owned(), bucket);
    let s = concat(s, "/");
    let s = concat(s, key);
    let s = concat(s, " at path ");
    concat(s, path)
}

/// The map of strings that JSON text decodes to, if it is a JSON object of
/// strings.
pub uninterp spec fn decoded_metadata(json: Seq<char>) -> Option<Map<Seq<char>, Seq<char>>>;

/// Relies on `serde_json::to_string`: a map with string keys and values
/// always serializes (it fails only through a failing `Serialize` impl or a
/// non-string key), to a JSON object that decodes back to the same map.
#[verifier::external_body]
fn metadata_to_json(m: &HashMap<String, String>) -> (r: Result<String, serde_json::Error>)
    ensures
        r is Ok,
        r matches Ok(json) ==> decoded_metadata(json@) == Some(m.deep_view()),
{
    serde_json::to_string(m)
}

/// Relies on `serde_json::from_str` to decode user metadata from a JSON
/// object of strings; what it decodes depends on the text alone.
#[verifier::external_body]
fn metadata_from_json(s: &str) -> (r: Result<HashMap<String, String>, serde_json::Error>)
    ensures
        r is Ok <==> decoded_metadata(s@) is Some,
        r matches Ok(m) ==> decoded_metadata(s@) == Some(m.deep_view()),
{
    serde_json::from_str(s)
}

/// `json` is the encoding of the user metadata `user`.
pub open spec fn metadata_encodes(json: Option<Seq<char>>, user: Option<HashMap<String, String>>) -> bool {
    match user {
        None => json is None,
        Some(m) => json matches Some(j) && decoded_metadata(j) == Some(m.deep_view()),
    }
}

/// Recorded metadata that is not a JSON object of strings.
pub open spec fn metadata_unreadable(json: Option<Seq<char>>) -> bool {
    json matches Some(j) && decoded_metadata(j) is None
}

/// `o` is the object that `row` describes, with `data` as its bytes.
pub open spec fn describes(o: Object, row: RowView, data: Seq<u8>) -> bool {
    &&& o.key@ == row.key
    &&& o.data@ == data
    &&& opt_view(o.content_type) == row.content_type
    &&& o.etag matches Some(t) && t@ == row.etag && t@ == etag_of(o.data@)
    &&& o.last_modified == row.last_modified
    &&& metadata_encodes(row.metadata, o.user_metadata)
}

/// Compares the ETag computed over an object's bytes with the one its row
/// records.
pub fn check_integrity(row: &ObjectRow, actual_etag: &str) -> (r: Result<(), StorageError>)
    ensures
        r is Ok <==> actual_etag@ == row.etag@,
        r matches Err(e) ==> (e matches StorageError::IntegrityError(m) && m@ == integrity_message(
            row.bucket_name@,
            row.key@,
        )),
{
    let actual = actual_etag.to_owned();
    if actual == row.etag {
        Ok(())
    } else {
        Err(StorageError::IntegrityError(integrity_text(row.bucket_name.as_str(), row.key.as_str())))
    }
}

/// Builds the object that a row describes from the bytes read at its blob
/// location. Bytes that do not hash to the row's ETag are never handed out.
pub fn object_from_blob(row: &ObjectRow, data: Vec<u8>) -> (r: Result<Object, StorageError>)
    ensures
        !integrity_holds(row@, data@) <==> r matches Err(StorageError::IntegrityError(_)),
        r matches Err(StorageError::IntegrityError(m)) ==> m@ == integrity_message(
            row.bucket_name@,
            row.key@,
        ),
        r matches Err(StorageError::JsonError(_)) <==> integrity_holds(row@, data@)
            && metadata_unreadable(row@.metadata),
        r matches Err(e) ==> e is IntegrityError || e is JsonError,
        r matches Ok(o) ==> describes(o, row@, data@),
{
    let actual = calculate_etag(data.as_slice());
    match check_integrity(row, actual.as_str()) {
        Ok(()) => {},
        Err(e) => {
            return Err(e);
        },
    }
    let user_metadata = match &row.metadata {
        Some(json) => match metadata_from_json(json.as_str()) {
            Ok(m) => Some(m),
            Err(e) => {
                return Err(StorageError::JsonError(e));
            },
        },
        None => None,
    };
    Ok(
        Object {
            key: row.key.clone(),
            data,
            content_type: crate::catalog::clone_opt(&row.content_type),
            etag: Some(row.etag.clone()),
            last_modified: row.last_modified,
            user_metadata,
        },
    )
}

/// Judges one row of a scan from the ETag computed over its blob (`None`:
/// the blob is missing).
pub fn audit_row(row: &ObjectRow, actual_etag: Option<String>) -> (r: Result<(), StorageError>)
    ensures
        r is Ok <==> (actual_etag matches Some(t) && t@ == row.etag@),
        r matches Err(e) ==> (e matches StorageError::ConsistencyError(m) && m@ == (match actual_etag {
            Some(_) => integrity_message(row.bucket_name@, row.key@),
            None => missing_message(row.bucket_name@, row.key@, row.file_path@),
        })),
{
    match actual_etag {
        Some(t) => {
            if t == row.etag {
                Ok(())
            } else {
                Err(
                    StorageError::ConsistencyError(
                        integrity_text(row.bucket_name.as_str(), row.key.as_str()),
                    ),
                )
            }
        },
        None => Err(
            StorageError::ConsistencyError(
                missing_text(row.bucket_name.as_str(), row.key.as_str(), row.file_path.as_str()),
            ),
        ),
    }
}

/// Checks one row against the blob read at its location (`None`: missing).
pub fn check_blob(row: &ObjectRow, blob: &Option<Vec<u8>>) -> (r: Result<(), StorageError>)
    ensures
        r is Ok <==> !violates(row@, opt_bytes(*blob)),
        r matches Err(e) ==> (e matches StorageError::ConsistencyError(m) && m@ == violation_message(
            row@,
            opt_bytes(*blob),
        )),
{
    let actual = match blob {
        Some(data) => Some(calculate_etag(data.as_slice())),
        None => None,
    };
    audit_row(row, actual)
}

/// The bytes of an optional blob.
pub open spec fn opt_bytes(blob: Option<Vec<u8>>) -> Option<Seq<u8>> {
    match blob {
        Some(v) => Some(v@),
        None => None,
    }
}

/// The rows of a scan with the blobs read for them, as values.
pub open spec fn scan_view(entries: Seq<(ObjectRow, Option<Vec<u8>>)>) -> Seq<(RowView, Option<Seq<u8>>)> {
    entries.map_values(|e: (ObjectRow, Option<Vec<u8>>)| (e.0@, opt_bytes(e.1)))
}


impl Storage {
    pub closed spec fn wf(&self) -> bool {
        self.catalog.wf() && self@.located()
    }

    /// A well-formed engine has a valid catalog whose rows all sit at the
    /// blob locations of their own buckets and keys.
    pub proof fn lemma_wf(&self)
        requires
            self.wf(),
        ensures
            self@.catalog.valid(),
            self@.located(),
    {
        self.catalog.lemma_valid();
    }

    /// An engine with an empty catalog whose blobs live under `base_path`.
    pub fn new(base_path: String) -> (r: Storage)
        ensures
            r.wf(),
            r@.base_path == base_path@,
            r@.catalog == CatalogView::empty(),
    {
        Storage { catalog: Catalog::new(), base_path }
    }

    /// The root under which blobs live.
    pub fn base_path(&self) -> (r: &str)
        ensures
            r@ == self@.base_path,
    {
        self.base_path.as_str()
    }

    /// Creates a bucket; fails if one of that name exists already.
    pub fn create_bucket(&mut self, name: &str) -> (r: Result<(), StorageError>)
        requires
            old(self).wf(),
        ensures
            final(self).wf(),
            final(self)@.base_path == old(self)@.base_path,
            r is Ok <==> !old(self)@.catalog.buckets.contains(name@),
            r is Ok ==> final(self)@.catalog == old(self)@.catalog.with_bucket(name@),
            r matches Err(e) ==> {
                &&& final(self)@ == old(self)@
                &&& e matches StorageError::BucketAlreadyExistsInStorage(n)
                &&& n@ == name@
            },
    {
        self.catalog.create_bucket(name)
    }

    /// Deletes a bucket and the rows of all its objects, and hands back
    /// those rows so that their blobs can be removed; fails if there is no
    /// such bucket.
    pub fn delete_bucket(&mut self, name: &str) -> (r: Result<Vec<ObjectRow>, StorageError>)
        requires
            old(self).wf(),
        ensures
            final(self).wf(),
            final(self)@.base_path == old(self)@.base_path,
            r is Ok <==> old(self)@.catalog.buckets.contains(name@),
            r matches Ok(rows) ==> {
                &&& final(self)@.catalog == old(self)@.catalog.without_bucket(name@)
                &&& enumerates(
                    row_views(rows@),
                    old(self)@.catalog.objects.restrict(
                        Set::new(|id: (Seq<char>, Seq<char>)| id.0 == name@),
                    ),
                )
            },
            r matches Err(e) ==> {
                &&& final(self)@ == old(self)@
                &&& e matches StorageError::BucketNotFoundInStorage(n)
                &&& n@ == name@
            },
    {
        self.catalog.delete_bucket(name)
    }

    /// The names of all buckets, each once.
    pub fn list_buckets(&self) -> (r: Vec<String>)
        requires
            self.wf(),
        ensures
            views(r@).no_duplicates(),
            views(r@).to_set() == self@.catalog.buckets,
    {
        self.catalog.list_buckets()
    }

    /// Whether a bucket of that name exists.
    pub fn bucket_exists(&self, name: &str) -> (r: bool)
        requires
            self.wf(),
        ensures
            r == self@.catalog.buckets.contains(name@),
    {
        self.catalog.bucket_exists(name)
    }

    /// The row that records `object` in `bucket`, given its encoded user
    /// metadata and its modification time.
    pub fn object_row(
        &self,
        bucket: &str,
        object: &Object,
        metadata: Option<String>,
        last_modified: i64,
    ) -> (r: ObjectRow)
        ensures
            r@ == stored_row(
                self@.base_path,
                bucket@,
                object.key@,
                object.data@,
                opt_view(object.content_type),
                opt_view(metadata),
                last_modified,
            ),
    {
        ObjectRow {
            bucket_name: bucket.to_owned(),
            key: object.key.clone(),
            file_path: blob_path(self.base_path.as_str(), bucket, object.key.as_str()),
            content_type: crate::catalog::clone_opt(&object.content_type),
            etag: calculate_etag(object.data.as_slice()),
            size: object.data.len() as u64,
            last_modified,
            metadata,
        }
    }

    /// Records `object` in `bucket`, stamped with the current time, and
    /// hands back its row: the caller writes the object's bytes at the row's
    /// location. Fails if the bucket does not exist, if another object's row
    /// records the same blob location, or if the clock reads earlier than the
    /// epoch. Every other row is left as it was.
    pub fn put_object(&mut self, bucket: &str, object: &Object) -> (r: Result<ObjectRow, StorageError>)
        requires
            old(self).wf(),
        ensures
            final(self).wf(),
            final(self)@.base_path == old(self)@.base_path,
            r matches Err(e) ==> (e is BucketNotFoundInStorage <==> !old(
                self,
            )@.catalog.buckets.contains(bucket@)),
            r matches Err(StorageError::BucketNotFoundInStorage(n)) ==> n@ == bucket@,
            r matches Err(e) ==> (e is InvalidPath <==> old(self)@.catalog.buckets.contains(bucket@)
                && old(self)@.catalog.location_taken(
                blob_location(old(self)@.base_path, bucket@, object.key@),
                bucket@,
                object.key@,
            )),
            r matches Err(StorageError::InvalidPath(p)) ==> p@ == blob_location(
                old(self)@.base_path,
                bucket@,
                object.key@,
            ),
            r matches Err(e) ==> e is BucketNotFoundInStorage || e is InvalidPath
                || e is SystemTimeError,
            r matches Err(_) ==> final(self)@ == old(self)@,
            old(self)@.catalog.buckets.contains(bucket@) && !old(self)@.catalog.location_taken(
                blob_location(old(self)@.base_path, bucket@, object.key@),
                bucket@,
                object.key@,
            ) ==> (r is Ok || r matches Err(StorageError::SystemTimeError(_))),
            r matches Ok(row) ==> {
                &&& old(self)@.catalog.buckets.contains(bucket@)
                &&& !old(self)@.catalog.location_taken(
                    blob_location(old(self)@.base_path, bucket@, object.key@),
                    bucket@,
                    object.key@,
                )
                &&& row@ == stored_row(
                    old(self)@.base_path,
                    bucket@,
                    object.key@,
                    object.data@,
                    opt_view(object.content_type),
                    row@.metadata,
                    row.last_modified,
                )
                &&& row.last_modified >= 0
                &&& metadata_encodes(row@.metadata, object.user_metadata)
                &&& final(self)@.catalog == old(self)@.catalog.with_row(row@)
            },
    {
        if !self.catalog.bucket_exists(bucket) {
            return Err(StorageError::BucketNotFoundInStorage(bucket.to_owned()));
        }
        let path = blob_path(self.base_path.as_str(), bucket, object.key.as_str());
        if self.catalog.location_taken(path.as_str(), bucket, object.key.as_str()) {
            return Err(StorageError::InvalidPath(path));
        }
        let metadata = match &object.user_metadata {
            Some(m) => match metadata_to_json(m) {
                Ok(json) => Some(json),
                Err(e) => {
                    return Err(StorageError::JsonError(e));
                },
            },
            None => None,
        };
        let last_modified = match clock_seconds() {
            Ok(secs) => timestamp_from_seconds(secs),
            Err(e) => {
                return Err(StorageError::SystemTimeError(e));
            },
        };
        let row = self.object_row(bucket, object, metadata, last_modified);
        let ghost old_view = self@;
        self.catalog.upsert_object_row(row.clone());
        proof {
            let c = self@.catalog;
            let o = old_view.catalog;
            let v = row@;
            assert(c.objects =~= o.with_row(v).objects) by {
                assert forall|id: (Seq<char>, Seq<char>)|
                    o.objects.contains_key(id) && id != v.id() implies o.objects[id].file_path
                    != v.file_path by {
                    if o.objects[id].file_path == v.file_path {
                        assert(o.location_taken(v.file_path, bucket@, object.key@));
                    }
                }
            }
            assert(c.buckets =~= o.with_row(v).buckets);
            assert forall|id: (Seq<char>, Seq<char>)| #[trigger]
                c.objects.contains_key(id) implies c.objects[id].file_path == blob_location(
                self@.base_path,
                id.0,
                id.1,
            ) by {
                if id != row@.id() {
                    assert(old_view.catalog.objects.contains_key(id));
                }
            }
        }
        Ok(row)
    }

    /// The row of an object; fails if the catalog holds none.
    pub fn get_object_row(&self, bucket: &str, key: &str) -> (r: Result<ObjectRow, StorageError>)
        requires
            self.wf(),
        ensures
            r is Ok <==> self@.catalog.objects.contains_key((bucket@, key@)),
            r matches Ok(row) ==> row@ == self@.catalog.objects[(bucket@, key@)],
            r matches Err(e) ==> (e matches StorageError::ObjectNotFound(k, b) && k@ == key@ && b@
                == bucket@),
    {
        self.catalog.get_object_row(bucket, key)
    }

    /// Deletes an object's row and hands it back, so that its blob can be
    /// removed; fails if the catalog holds no such object.
    pub fn delete_object(&mut self, bucket: &str, key: &str) -> (r: Result<ObjectRow, StorageError>)
        requires
            old(self).wf(),
        ensures
            final(self).wf(),
            final(self)@.base_path == old(self)@.base_path,
            final(self)@.catalog == old(self)@.catalog.without_object((bucket@, key@)),
            r is Ok <==> old(self)@.catalog.objects.contains_key((bucket@, key@)),
            r matches Ok(row) ==> row@ == old(self)@.catalog.objects[(bucket@, key@)],
            r matches Err(e) ==> (e matches StorageError::ObjectNotFound(k, b) && k@ == key@ && b@
                == bucket@),
    {
        let ghost old_view = self@;
        let removed = self.catalog.delete_object_row(bucket, key);
        proof {
            let c = self@.catalog;
            assert forall|id: (Seq<char>, Seq<char>)| #[trigger]
                c.objects.contains_key(id) implies c.objects[id].file_path == blob_location(
                self@.base_path,
                id.0,
                id.1,
            ) by {
                assert(old_view.catalog.objects.contains_key(id));
            }
        }
        match removed {
            Some(row) => Ok(row),
            None => Err(StorageError::ObjectNotFound(key.to_owned(), bucket.to_owned())),
        }
    }

    /// The keys of the objects in a bucket, each once; fails if there is no
    /// such bucket.
    pub fn list_objects(&self, bucket: &str) -> (r: Result<Vec<String>, StorageError>)
        requires
            self.wf(),
        ensures
            r is Ok <==> self@.catalog.buckets.contains(bucket@),
            r matches Ok(keys) ==> views(keys@).no_duplicates() && views(keys@).to_set()
                == self@.catalog.keys_in(bucket@),
            r matches Err(e) ==> (e matches StorageError::BucketNotFoundInStorage(n) && n@
                == bucket@),
    {
        if self.catalog.bucket_exists(bucket) {
            Ok(self.catalog.list_object_keys(bucket))
        } else {
            Err(StorageError::BucketNotFoundInStorage(bucket.to_owned()))
        }
    }

    /// Whether the catalog holds no object in the bucket.
    pub fn is_empty(&self, bucket: &str) -> (r: bool)
        requires
            self.wf(),
        ensures
            r == (self@.catalog.keys_in(bucket@) == Set::<Seq<char>>::empty()),
    {
        let keys = self.catalog.list_object_keys(bucket);
        proof {
            let v = views(keys@);
            if v.len() > 0 {
                assert(v.to_set().contains(v[0]));
            } else {
                assert(v.to_set() =~= Set::<Seq<char>>::empty());
            }
        }
        keys.len() == 0
    }

    /// Takes back a row recorded durably earlier, as at start-up; refuses
    /// (and leaves the engine unchanged) a row whose location is not that
    /// of its bucket and key under this root.
    pub fn restore_row(&mut self, row: ObjectRow) -> (r: bool)
        requires
            old(self).wf(),
        ensures
            final(self).wf(),
            final(self)@.base_path == old(self)@.base_path,
            r == (row@.file_path == blob_location(old(self)@.base_path, row@.bucket_name, row@.key)),
            r ==> final(self)@.catalog == old(self)@.catalog.upserted(row@),
            !r ==> final(self)@ == old(self)@,
    {
        let expected = blob_path(self.base_path.as_str(), row.bucket_name.as_str(), row.key.as_str());
        if expected != row.file_path {
            return false;
        }
        let ghost old_view = self@;
        let ghost v = row@;
        self.catalog.upsert_object_row(row);
        proof {
            let c = self@.catalog;
            assert forall|id: (Seq<char>, Seq<char>)| #[trigger]
                c.objects.contains_key(id) implies c.objects[id].file_path == blob_location(
                self@.base_path,
                id.0,
                id.1,
            ) by {
                if id != v.id() {
                    assert(old_view.catalog.objects.contains_key(id));
                }
            }
        }
        true
    }

    /// Reads an object out of the catalog, given the bytes read at its blob
    /// location: fails if the catalog holds no such object, and otherwise
    /// as `object_from_blob` does on its row.
    pub fn get_object(&self, bucket: &str, key: &str, data: Vec<u8>) -> (r: Result<Object, StorageError>)
        requires
            self.wf(),
        ensures
            !self@.catalog.objects.contains_key((bucket@, key@)) <==> r matches Err(
                StorageError::ObjectNotFound(_, _),
            ),
            r matches Err(StorageError::ObjectNotFound(k, b)) ==> k@ == key@ && b@ == bucket@,
            self@.catalog.objects.contains_key((bucket@, key@)) ==> {
                let row = self@.catalog.objects[(bucket@, key@)];
                &&& (!integrity_holds(row, data@) <==> r matches Err(StorageError::IntegrityError(_)))
                &&& (r matches Err(StorageError::IntegrityError(m)) ==> m@ == integrity_message(
                    bucket@,
                    key@,
                ))
                &&& (r matches Err(StorageError::JsonError(_)) <==> integrity_holds(row, data@)
                    && metadata_unreadable(row.metadata))
                &&& (r matches Err(e) ==> e is IntegrityError || e is JsonError)
                &&& (r matches Ok(o) ==> o.key@ == key@ && describes(o, row, data@))
            },
    {
        proof {
            self.catalog.lemma_valid();
        }
        let row = match self.catalog.get_object_row(bucket, key) {
            Ok(row) => row,
            Err(e) => {
                return Err(e);
            },
        };
        object_from_blob(&row, data)
    }

    /// Scans rows paired with the blobs read for them, and reports the first
    /// row whose blob is missing or does not hash to its ETag.
    pub fn check_consistency(entries: &Vec<(ObjectRow, Option<Vec<u8>>)>) -> (r: Result<(), StorageError>)
        ensures
            r is Ok <==> forall|i: int|
                0 <= i < entries@.len() ==> !violates(#[trigger] scan_view(entries@)[i].0, scan_view(entries@)[i].1),
            r matches Err(e) ==> exists|i: int|
                0 <= i < entries@.len() && {
                    let v = #[trigger] scan_view(entries@)[i];
                    &&& violates(v.0, v.1)
                    &&& forall|j: int| 0 <= j < i ==> !violates(#[trigger] scan_view(entries@)[j].0, scan_view(entries@)[j].1)
                    &&& e matches StorageError::ConsistencyError(m) && m@ == violation_message(v.0, v.1)
                },
    {
        let ghost sv = scan_view(entries@);
        let mut i: usize = 0;
        while i < entries.len()
            invariant
                i <= entries@.len(),
                sv == scan_view(entries@),
                forall|j: int| 0 <= j < i ==> !violates(#[trigger] sv[j].0, sv[j].1),
            decreases entries@.len() - i,
        {
            let entry = &entries[i];
            assert(sv[i as int] == (entry.0@, opt_bytes(entry.1)));
            match check_blob(&entry.0, &entry.1) {
                Ok(()) => {},
                Err(e) => {
                    assert(violates(sv[i as int].0, sv[i as int].1));
                    return Err(e);
                },
            }
            i = i + 1;
        }
        Ok(())
    }

    /// Every row of the catalog, each once: what a consistency scan walks.
    pub fn rows(&self) -> (r: Vec<ObjectRow>)
        requires
            self.wf(),
        ensures
            enumerates(row_views(r@), self@.catalog.objects),
    {
        self.catalog.rows()
    }
}

} // verus!
