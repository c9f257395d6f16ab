//! Laws that relate the operations of the catalog and the engine to one
//! another, stated over the views that their contracts use.

use crate::catalog::{CatalogView, RowView};
use crate::etag::etag_of;
use crate::storage::{
    integrity_holds, integrity_message, metadata_encodes, metadata_unreadable, stored_row, violates,
    violation_message,
};
use std::collections::HashMap;
use vstd::prelude::*;

verus! {

/// Creating a bucket that is absent succeeds (creation succeeds exactly when
/// the name is absent) and leaves the bucket present, so that a second
/// creation of the same name fails.
pub proof fn law_create_bucket_once(c: CatalogView, bucket: Seq<char>)
    requires
        !c.buckets.contains(bucket),
    ensures
        c.with_bucket(bucket).buckets.contains(bucket),
{
}

/// A bucket, once created, stays until it is deleted: puts, object
/// deletions, other creations and the deletion of other buckets keep it.
pub proof fn law_bucket_persists(
    c: CatalogView,
    bucket: Seq<char>,
    row: RowView,
    id: (Seq<char>, Seq<char>),
    other: Seq<char>,
)
    requires
        c.buckets.contains(bucket),
        other != bucket,
    ensures
        c.with_row(row).buckets.contains(bucket),
        c.without_object(id).buckets.contains(bucket),
        c.with_bucket(other).buckets.contains(bucket),
        c.without_bucket(other).buckets.contains(bucket),
{
}

/// After a put of `data` under (bucket, key), the catalog holds the row that
/// the put recorded; reading the same bytes back passes the integrity check,
/// the recorded metadata decodes to the metadata given, and a scan finds
/// nothing wrong with the bytes.
pub proof fn law_put_get_round_trip(
    c: CatalogView,
    base: Seq<char>,
    bucket: Seq<char>,
    key: Seq<char>,
    data: Seq<u8>,
    content_type: Option<Seq<char>>,
    metadata: Option<Seq<char>>,
    user_metadata: Option<HashMap<String, String>>,
    last_modified: i64,
)
    requires
        metadata_encodes(metadata, user_metadata),
    ensures
        ({
            let row = stored_row(base, bucket, key, data, content_type, metadata, last_modified);
            &&& c.with_row(row).objects.contains_key((bucket, key))
            &&& c.with_row(row).objects[(bucket, key)] == row
            &&& integrity_holds(row, data)
            &&& !metadata_unreadable(row.metadata)
            &&& !violates(row, Some(data))
        }),
{
}

/// A second put under the same (bucket, key) replaces the first row with its
/// own content, ETag, size, content type and metadata; every other row, and
/// the set of rows, stay as after the first put, so the key is listed once.
pub proof fn law_overwrite_replaces(
    c: CatalogView,
    base: Seq<char>,
    bucket: Seq<char>,
    key: Seq<char>,
    first: Seq<u8>,
    second: Seq<u8>,
    content_types: (Option<Seq<char>>, Option<Seq<char>>),
    metadata: (Option<Seq<char>>, Option<Seq<char>>),
    times: (i64, i64),
)
    ensures
        ({
            let r1 = stored_row(base, bucket, key, first, content_types.0, metadata.0, times.0);
            let r2 = stored_row(base, bucket, key, second, content_types.1, metadata.1, times.1);
            let c1 = c.with_row(r1);
            let c2 = c1.with_row(r2);
            &&& c2.objects.contains_key((bucket, key))
            &&& c2.objects[(bucket, key)] == r2
            &&& c2.objects.dom() == c1.objects.dom()
            &&& forall|id: (Seq<char>, Seq<char>)|
                #[trigger] c1.objects.contains_key(id) && id != (bucket, key) ==> c2.objects[id]
                    == c1.objects[id]
            &&& c2.buckets == c1.buckets
            &&& c2.keys_in(bucket).contains(key)
            &&& c2.keys_in(bucket) == c1.keys_in(bucket)
        }),
{
    let r1 = stored_row(base, bucket, key, first, content_types.0, metadata.0, times.0);
    let r2 = stored_row(base, bucket, key, second, content_types.1, metadata.1, times.1);
    let c1 = c.with_row(r1);
    let c2 = c1.with_row(r2);
    assert(c2.objects.dom() =~= c1.objects.dom());
    assert(c2.buckets =~= c1.buckets);
    assert(c2.keys_in(bucket) =~= c1.keys_in(bucket));
}

/// Deleting an object that exists removes it (the delete succeeds exactly
/// when the object exists), so that a second delete finds nothing.
pub proof fn law_delete_object_twice(c: CatalogView, bucket: Seq<char>, key: Seq<char>)
    requires
        c.objects.contains_key((bucket, key)),
    ensures
        !c.without_object((bucket, key)).objects.contains_key((bucket, key)),
{
}

/// Deleting a bucket removes it and every object in it: no key of the bucket
/// is left, so a later lookup under it finds nothing.
pub proof fn law_delete_bucket_cascades(c: CatalogView, bucket: Seq<char>)
    ensures
        !c.without_bucket(bucket).buckets.contains(bucket),
        c.without_bucket(bucket).keys_in(bucket) == Set::<Seq<char>>::empty(),
        forall|key: Seq<char>| !c.without_bucket(bucket).objects.contains_key((bucket, key)),
{
    assert(c.without_bucket(bucket).keys_in(bucket) =~= Set::<Seq<char>>::empty());
}

/// Bytes altered after a put so that they no longer hash to the recorded
/// ETag fail the integrity check of a get; and in a scan where they are the
/// only disagreement, they are the first one, reported with the object's
/// bucket and key.
pub proof fn law_corruption_detected(
    row: RowView,
    altered: Seq<u8>,
    entries: Seq<(RowView, Option<Seq<u8>>)>,
    i: int,
)
    requires
        etag_of(altered) != row.etag,
        0 <= i < entries.len(),
        entries[i] == (row, Some(altered)),
        forall|j: int|
            0 <= j < entries.len() && j != i ==> !violates(#[trigger] entries[j].0, entries[j].1),
    ensures
        !integrity_holds(row, altered),
        violates(entries[i].0, entries[i].1),
        forall|j: int| 0 <= j < i ==> !violates(#[trigger] entries[j].0, entries[j].1),
        violation_message(entries[i].0, entries[i].1) == integrity_message(row.bucket_name, row.key),
{
}

} // verus!
