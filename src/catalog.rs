//! The catalog: which buckets exist, and one row per object recording where
//! its blob lives and what it should hash to.
//!
//! Bucket names are unique; an object is identified by its bucket and key;
//! no two rows share a blob location; every row belongs to a bucket that
//! exists. Deleting a bucket deletes its rows.

use crate::storage::StorageError;
use vstd::prelude::*;

verus! {

/// The view of an optional string.
pub open spec fn opt_view(o: Option<String>) -> Option<Seq<char>> {
    match o {
        Some(s) => Some(s@),
        None => None,
    }
}

/// The views of a sequence of strings.
pub open spec fn views(s: Seq<String>) -> Seq<Seq<char>> {
    s.map_values(|x: String| x@)
}

/// The views of a sequence of rows.
pub open spec fn row_views(rows: Seq<ObjectRow>) -> Seq<RowView> {
    rows.map_values(|r: ObjectRow| r@)
}

/// `rows` lists the rows of `objects`, each once.
pub open spec fn enumerates(
    rows: Seq<RowView>,
    objects: Map<(Seq<char>, Seq<char>), RowView>,
) -> bool {
    &&& forall|a: int|
        0 <= a < rows.len() ==> objects.contains_key(#[trigger] rows[a].id()) && objects[rows[a].id()]
            == rows[a]
    &&& forall|id: (Seq<char>, Seq<char>)| #[trigger]
        objects.contains_key(id) ==> exists|a: int| 0 <= a < rows.len() && #[trigger] rows[a].id() == id
    &&& forall|a: int, b: int|
        0 <= a < b < rows.len() ==> #[trigger] rows[a].id() != #[trigger] rows[b].id()
}

/// A row of the catalog, as values.
pub struct RowView {
    pub bucket_name: Seq<char>,
    pub key: Seq<char>,
    pub file_path: Seq<char>,
    pub content_type: Option<Seq<char>>,
    pub etag: Seq<char>,
    pub size: u64,
    pub last_modified: i64,
    pub metadata: Option<Seq<char>>,
}

impl RowView {
    /// The bucket and key that identify the row's object.
    pub open spec fn id(self) -> (Seq<char>, Seq<char>) {
        (self.bucket_name, self.key)
    }
}

/// The catalog's record of one object.
#[derive(Debug)]
pub struct ObjectRow {
    pub bucket_name: String,
    pub key: String,
    /// Where the object's blob is stored.
    pub file_path: String,
    pub content_type: Option<String>,
    /// The ETag of the bytes that were written to the blob.
    pub etag: String,
    pub size: u64,
    /// Seconds since the Unix epoch.
    pub last_modified: i64,
    /// The user metadata, as a JSON object of strings.
    pub metadata: Option<String>,
}

impl View for ObjectRow {
    type V = RowView;

    open spec fn view(&self) -> RowView {
        RowView {
            bucket_name: self.bucket_name@,
            key: self.key@,
            file_path: self.file_path@,
            content_type: opt_view(self.content_type),
            etag: self.etag@,
            size: self.size,
            last_modified: self.last_modified,
            metadata: opt_view(self.metadata),
        }
    }
}

pub(crate) fn clone_opt(o: &Option<String>) -> (r: Option<String>)
    ensures
        r == *o,
{
    match o {
        Some(s) => Some(s.clone()),
        None => None,
    }
}

impl Clone for ObjectRow {
    fn clone(&self) -> (r: Self)
        ensures
            r == *self,
    {
        ObjectRow {
            bucket_name: self.bucket_name.clone(),
            key: self.key.clone(),
            file_path: self.file_path.clone(),
            content_type: clone_opt(&self.content_type),
            etag: self.etag.clone(),
            size: self.size,
            last_modified: self.last_modified,
            metadata: clone_opt(&self.metadata),
        }
    }
}

/// The catalog as values: the set of bucket names, and the rows by
/// (bucket, key).
pub struct CatalogView {
    pub buckets: Set<Seq<char>>,
    pub objects: Map<(Seq<char>, Seq<char>), RowView>,
}

impl CatalogView {
    pub open spec fn empty() -> CatalogView {
        CatalogView { buckets: Set::empty(), objects: Map::empty() }
    }

    /// Each row sits under its own (bucket, key), in a bucket that exists,
    /// and no two rows share a blob location.
    pub open spec fn valid(self) -> bool {
        &&& forall|id: (Seq<char>, Seq<char>)| #[trigger]
            self.objects.contains_key(id) ==> self.objects[id].id() == id && self.buckets.contains(
                id.0,
            )
        &&& forall|a: (Seq<char>, Seq<char>), b: (Seq<char>, Seq<char>)|
            #![trigger self.objects[a], self.objects[b]]
            self.objects.contains_key(a) && self.objects.contains_key(b) && a != b
                ==> self.objects[a].file_path != self.objects[b].file_path
    }

    /// The keys of the objects in `bucket`.
    pub open spec fn keys_in(self, bucket: Seq<char>) -> Set<Seq<char>> {
        Set::new(|k: Seq<char>| self.objects.contains_key((bucket, k)))
    }

    pub open spec fn with_bucket(self, bucket: Seq<char>) -> CatalogView {
        CatalogView { buckets: self.buckets.insert(bucket), objects: self.objects }
    }

    /// The bucket removed, and every row in it.
    pub open spec fn without_bucket(self, bucket: Seq<char>) -> CatalogView {
        CatalogView {
            buckets: self.buckets.remove(bucket),
            objects: self.objects.restrict(
                Set::new(|id: (Seq<char>, Seq<char>)| id.0 != bucket),
            ),
        }
    }

    /// The row inserted under its (bucket, key), replacing the row that was
    /// there and any row with the same blob location; its bucket is added
    /// if it was missing.
    pub open spec fn upserted(self, row: RowView) -> CatalogView {
        CatalogView {
            buckets: self.buckets.insert(row.bucket_name),
            objects: Map::new(
                |id: (Seq<char>, Seq<char>)|
                    id == row.id() || (self.objects.contains_key(id)
                        && self.objects[id].file_path != row.file_path),
                |id: (Seq<char>, Seq<char>)|
                    if id == row.id() {
                        row
                    } else {
                        self.objects[id]
                    },
            ),
        }
    }

    /// The row inserted under its (bucket, key), every other row kept.
    pub open spec fn with_row(self, row: RowView) -> CatalogView {
        CatalogView {
            buckets: self.buckets.insert(row.bucket_name),
            objects: self.objects.insert(row.id(), row),
        }
    }

    /// Some row other than that of (bucket, key) records `path` as its blob
    /// location.
    pub open spec fn location_taken(
        self,
        path: Seq<char>,
        bucket: Seq<char>,
        key: Seq<char>,
    ) -> bool {
        exists|id: (Seq<char>, Seq<char>)| #[trigger]
            self.objects.contains_key(id) && id != (bucket, key) && self.objects[id].file_path
                == path
    }

    pub open spec fn without_object(self, id: (Seq<char>, Seq<char>)) -> CatalogView {
        CatalogView { buckets: self.buckets, objects: self.objects.remove(id) }
    }
}

/// Appending a row that `objects` lacks lists the map with that row added.
proof fn lemma_enumerates_push(
    rows: Seq<RowView>,
    objects: Map<(Seq<char>, Seq<char>), RowView>,
    row: RowView,
)
    requires
        enumerates(rows, objects),
        !objects.contains_key(row.id()),
    ensures
        enumerates(rows.push(row), objects.insert(row.id(), row)),
{
    let r2 = rows.push(row);
    let m2 = objects.insert(row.id(), row);
    assert forall|a: int| 0 <= a < r2.len() implies m2.contains_key(#[trigger] r2[a].id())
        && m2[r2[a].id()] == r2[a] by {
        if a < rows.len() {
            assert(r2[a] == rows[a]);
        }
    }
    assert forall|id: (Seq<char>, Seq<char>)| #[trigger] m2.contains_key(id) implies exists|a: int|
        0 <= a < r2.len() && #[trigger] r2[a].id() == id by {
        if id == row.id() {
            assert(r2[rows.len() as int].id() == id);
        } else {
            let a = choose|a: int| 0 <= a < rows.len() && #[trigger] rows[a].id() == id;
            assert(r2[a] == rows[a]);
        }
    }
    assert forall|a: int, b: int| 0 <= a < b < r2.len() implies #[trigger] r2[a].id()
        != #[trigger] r2[b].id() by {
        assert(r2[a] == rows[a]);
        if b < rows.len() {
            assert(r2[b] == rows[b]);
        }
    }
}

/// Which rows an operation takes out of the catalog.
enum RowFilter {
    /// The rows of a bucket.
    InBucket(String),
    /// The row under (bucket, key) and any row at the given blob location.
    Displaced(String, String, String),
    /// The row under (bucket, key).
    Object(String, String),
}

spec fn drops(f: RowFilter, row: RowView) -> bool {
    match f {
        RowFilter::InBucket(b) => row.bucket_name == b@,
        RowFilter::Displaced(b, k, p) => row.id() == (b@, k@) || row.file_path == p@,
        RowFilter::Object(b, k) => row.id() == (b@, k@),
    }
}

fn drops_row(f: &RowFilter, row: &ObjectRow) -> (r: bool)
    ensures
        r == drops(*f, row@),
{
    match f {
        RowFilter::InBucket(b) => row.bucket_name == *b,
        RowFilter::Displaced(b, k, p) => (row.bucket_name == *b && row.key == *k) || row.file_path
            == *p,
        RowFilter::Object(b, k) => row.bucket_name == *b && row.key == *k,
    }
}

/// The rows of `objects` that `f` keeps (`keep`) or drops (`!keep`).
spec fn selected(
    objects: Map<(Seq<char>, Seq<char>), RowView>,
    f: RowFilter,
    keep: bool,
) -> Map<(Seq<char>, Seq<char>), RowView> {
    objects.restrict(
        Set::new(|id: (Seq<char>, Seq<char>)| drops(f, objects[id]) != keep),
    )
}

/// Rows picked out of a listing by increasing indices, exactly those that
/// `f` keeps (or drops), list the selected part of the map.
proof fn lemma_selected_rows(
    ov: Seq<RowView>,
    m: Map<(Seq<char>, Seq<char>), RowView>,
    f: RowFilter,
    keep: bool,
    src: Seq<int>,
    out: Seq<RowView>,
)
    requires
        enumerates(ov, m),
        src.len() == out.len(),
        forall|a: int|
            0 <= a < src.len() ==> 0 <= #[trigger] src[a] < ov.len() && out[a] == ov[src[a]]
                && drops(f, ov[src[a]]) != keep,
        forall|a: int, b: int| 0 <= a < b < src.len() ==> #[trigger] src[a] < #[trigger] src[b],
        forall|j: int|
            0 <= j < ov.len() && drops(f, #[trigger] ov[j]) != keep ==> exists|a: int|
                0 <= a < src.len() && #[trigger] src[a] == j,
    ensures
        enumerates(out, selected(m, f, keep)),
{
    let sm = selected(m, f, keep);
    assert forall|a: int| 0 <= a < out.len() implies sm.contains_key(#[trigger] out[a].id())
        && sm[out[a].id()] == out[a] by {
        assert(out[a] == ov[src[a]]);
        assert(m.contains_key(ov[src[a]].id()));
    }
    assert forall|id: (Seq<char>, Seq<char>)| #[trigger] sm.contains_key(id) implies exists|a: int|
        0 <= a < out.len() && #[trigger] out[a].id() == id by {
        let j = choose|j: int| 0 <= j < ov.len() && #[trigger] ov[j].id() == id;
        assert(drops(f, ov[j]) != keep);
        let a = choose|a: int| 0 <= a < src.len() && #[trigger] src[a] == j;
        assert(out[a] == ov[j]);
    }
    assert forall|a: int, b: int| 0 <= a < b < out.len() implies #[trigger] out[a].id()
        != #[trigger] out[b].id() by {
        assert(src[a] < src[b]);
        assert(out[a] == ov[src[a]]);
        assert(out[b] == ov[src[b]]);
    }
}

/// The catalog of buckets and object rows.
#[derive(Clone)]
pub struct Catalog {
    buckets: Vec<String>,
    objects: Vec<ObjectRow>,
    model: Ghost<CatalogView>,
}

impl View for Catalog {
    type V = CatalogView;

    closed spec fn view(&self) -> CatalogView {
        self.model@
    }
}

impl Catalog {
    /// The vectors hold exactly the buckets and rows of the view, each once.
    pub closed spec fn wf(&self) -> bool {
        &&& self.model@.valid()
        &&& forall|i: int|
            0 <= i < self.buckets@.len() ==> self.model@.buckets.contains(
                #[trigger] self.buckets@[i]@,
            )
        &&& forall|b: Seq<char>| #[trigger]
            self.model@.buckets.contains(b) ==> exists|i: int|
                0 <= i < self.buckets@.len() && #[trigger] self.buckets@[i]@ == b
        &&& forall|i: int, j: int|
            0 <= i < j < self.buckets@.len() ==> #[trigger] self.buckets@[i]@
                != #[trigger] self.buckets@[j]@
        &&& enumerates(row_views(self.objects@), self.model@.objects)
    }

    /// A well-formed catalog has a valid view.
    pub proof fn lemma_valid(&self)
        requires
            self.wf(),
        ensures
            self@.valid(),
    {
    }

    /// An empty catalog.
    pub fn new() -> (r: Catalog)
        ensures
            r.wf(),
            r@ == CatalogView::empty(),
    {
        Catalog { buckets: Vec::new(), objects: Vec::new(), model: Ghost(CatalogView::empty()) }
    }

    fn find_bucket(&self, name: &String) -> (r: Option<usize>)
        requires
            self.wf(),
        ensures
            r matches Some(i) ==> i < self.buckets@.len() && self.buckets@[i as int]@ == name@,
            r is None <==> !self@.buckets.contains(name@),
    {
        let mut i: usize = 0;
        while i < self.buckets.len()
            invariant
                i <= self.buckets@.len(),
                self.wf(),
                forall|j: int| 0 <= j < i ==> self.buckets@[j]@ != name@,
            decreases self.buckets@.len() - i,
        {
            if self.buckets[i] == *name {
                return Some(i);
            }
            i = i + 1;
        }
        None
    }

    /// The rows that `f` keeps (`keep`) or drops (`!keep`), in catalog order.
    fn select(&self, f: &RowFilter, keep: bool) -> (r: Vec<ObjectRow>)
        requires
            self.wf(),
        ensures
            enumerates(row_views(r@), selected(self@.objects, *f, keep)),
    {
        let ghost m = self@.objects;
        let ghost ov = row_views(self.objects@);
        let ghost src: Seq<int> = Seq::empty();
        let mut out: Vec<ObjectRow> = Vec::new();
        let mut i: usize = 0;
        while i < self.objects.len()
            invariant
                i <= self.objects@.len(),
                ov == row_views(self.objects@),
                src.len() == out@.len(),
                forall|a: int|
                    0 <= a < src.len() ==> 0 <= #[trigger] src[a] < i && out@[a]@ == ov[src[a]]
                        && drops(*f, ov[src[a]]) != keep,
                forall|a: int, b: int| 0 <= a < b < src.len() ==> #[trigger] src[a] < #[trigger] src[b],
                forall|j: int|
                    0 <= j < i && drops(*f, #[trigger] ov[j]) != keep ==> exists|a: int|
                        0 <= a < src.len() && #[trigger] src[a] == j,
            decreases self.objects@.len() - i,
        {
            if drops_row(f, &self.objects[i]) != keep {
                let ghost old_src = src;
                proof {
                    src = src.push(i as int);
                }
                out.push(self.objects[i].clone());
                proof {
                    assert forall|j: int|
                        0 <= j < i + 1 && drops(*f, #[trigger] ov[j]) != keep implies exists|a: int|
                        0 <= a < src.len() && #[trigger] src[a] == j by {
                        if j == i {
                            assert(src[src.len() - 1] == j);
                        } else {
                            let a = choose|a: int| 0 <= a < old_src.len() && #[trigger] old_src[a] == j;
                            assert(src[a] == j);
                        }
                    }
                }
            }
            i = i + 1;
        }
        proof {
            lemma_selected_rows(ov, m, *f, keep, src, row_views(out@));
        }
        out
    }

    /// Splits the rows into those that `f` keeps and those that it drops.
    fn partition(&self, f: &RowFilter) -> (r: (Vec<ObjectRow>, Vec<ObjectRow>))
        requires
            self.wf(),
        ensures
            enumerates(row_views(r.0@), selected(self@.objects, *f, true)),
            enumerates(row_views(r.1@), selected(self@.objects, *f, false)),
    {
        (self.select(f, true), self.select(f, false))
    }

    /// The names of all buckets, each once.
    pub fn list_buckets(&self) -> (r: Vec<String>)
        requires
            self.wf(),
        ensures
            views(r@).no_duplicates(),
            views(r@).to_set() == self@.buckets,
    {
        let mut out: Vec<String> = Vec::new();
        let mut i: usize = 0;
        while i < self.buckets.len()
            invariant
                i <= self.buckets@.len(),
                out@ == self.buckets@.subrange(0, i as int),
            decreases self.buckets@.len() - i,
        {
            out.push(self.buckets[i].clone());
            i = i + 1;
            assert(out@ =~= self.buckets@.subrange(0, i as int));
        }
        proof {
            assert(out@ =~= self.buckets@);
            let v = views(out@);
            assert forall|a: int, b: int| 0 <= a < v.len() && 0 <= b < v.len() && a != b implies v[a]
                != v[b] by {
                if a < b {
                    assert(self.buckets@[a]@ != self.buckets@[b]@);
                } else {
                    assert(self.buckets@[b]@ != self.buckets@[a]@);
                }
            }
            assert forall|b: Seq<char>| v.to_set().contains(b) <==> self@.buckets.contains(b) by {
                if self@.buckets.contains(b) {
                    let i = choose|i: int| 0 <= i < self.buckets@.len() && #[trigger] self.buckets@[i]@ == b;
                    assert(v[i] == b);
                }
                if v.contains(b) {
                    let i = choose|i: int| 0 <= i < v.len() && v[i] == b;
                    assert(self.buckets@[i]@ == b);
                }
            }
            assert(v.to_set() =~= self@.buckets);
        }
        out
    }

    /// Deletes a bucket and every row in it, and hands back those rows so
    /// that their blobs can be removed; fails if there is no such bucket.
    pub fn delete_bucket(&mut self, name: &str) -> (r: Result<Vec<ObjectRow>, StorageError>)
        requires
            old(self).wf(),
        ensures
            final(self).wf(),
            r is Ok <==> old(self)@.buckets.contains(name@),
            r matches Ok(rows) ==> {
                &&& final(self)@ == old(self)@.without_bucket(name@)
                &&& enumerates(
                    row_views(rows@),
                    old(self)@.objects.restrict(
                        Set::new(|id: (Seq<char>, Seq<char>)| id.0 == name@),
                    ),
                )
            },
            r matches Err(e) ==> {
                &&& final(self)@ == old(self)@
                &&& e matches StorageError::BucketNotFoundInStorage(n)
                &&& n@ == name@
            },
    {
        let name = name.to_owned();
        let i = match self.find_bucket(&name) {
            Some(i) => i,
            None => {
                return Err(StorageError::BucketNotFoundInStorage(name));
            },
        };
        let filter = RowFilter::InBucket(name);
        let (kept, dropped) = self.partition(&filter);
        let ghost old_self = *self;
        let ghost m = self@.objects;
        let ghost target = old_self@.without_bucket(name@);
        self.buckets.remove(i);
        self.objects = kept;
        self.model = Ghost(target);
        proof {
            assert(m.restrict(Set::new(|id: (Seq<char>, Seq<char>)| id.0 != name@)) =~= selected(
                m,
                filter,
                true,
            ));
            assert(m.restrict(Set::new(|id: (Seq<char>, Seq<char>)| id.0 == name@)) =~= selected(
                m,
                filter,
                false,
            ));
            let ob = old_self.buckets@;
            assert forall|k: int| 0 <= k < self.buckets@.len() implies #[trigger] self.buckets@[k]
                == (if k < i {
                ob[k]
            } else {
                ob[k + 1]
            }) by {}
            assert forall|k: int|
                0 <= k < self.buckets@.len() implies self.model@.buckets.contains(
                #[trigger] self.buckets@[k]@,
            ) by {
                if k < i {
                    assert(ob[k]@ != ob[i as int]@);
                } else {
                    assert(ob[i as int]@ != ob[k + 1]@);
                }
            }
            assert forall|b: Seq<char>| #[trigger]
                self.model@.buckets.contains(b) implies exists|k: int|
                0 <= k < self.buckets@.len() && #[trigger] self.buckets@[k]@ == b by {
                let j = choose|j: int| 0 <= j < ob.len() && #[trigger] ob[j]@ == b;
                if j < i {
                    assert(self.buckets@[j]@ == b);
                } else {
                    assert(self.buckets@[j - 1]@ == b);
                }
            }
            assert forall|a: int, b: int|
                0 <= a < b < self.buckets@.len() implies #[trigger] self.buckets@[a]@
                    != #[trigger] self.buckets@[b]@ by {
                let a2 = if a < i { a } else { a + 1 };
                let b2 = if b < i { b } else { b + 1 };
                assert(ob[a2]@ != ob[b2]@);
            }
        }
        Ok(dropped)
    }

    fn add_bucket(&mut self, name: String)
        requires
            old(self).wf(),
            !old(self)@.buckets.contains(name@),
        ensures
            final(self).wf(),
            final(self)@ == old(self)@.with_bucket(name@),
    {
        let ghost old_self = *self;
        self.buckets.push(name);
        self.model = Ghost(old_self@.with_bucket(name@));
        proof {
            let n = self.buckets@.len() - 1;
            assert(self.buckets@[n]@ == name@);
            assert forall|b: Seq<char>| #[trigger] self.model@.buckets.contains(b) implies exists|i: int|
                0 <= i < self.buckets@.len() && #[trigger] self.buckets@[i]@ == b by {
                if b != name@ {
                    let i = choose|i: int| 0 <= i < old_self.buckets@.len() && #[trigger] old_self.buckets@[i]@ == b;
                    assert(self.buckets@[i]@ == b);
                }
            }
            assert forall|i: int, j: int|
                0 <= i < j < self.buckets@.len() implies #[trigger] self.buckets@[i]@
                    != #[trigger] self.buckets@[j]@ by {
                if j == n {
                    assert(old_self.model@.buckets.contains(old_self.buckets@[i]@));
                }
            }
            assert(self.model@.objects == old_self.model@.objects);
            assert(self.objects@ == old_self.objects@);
            assert(self.model@.valid());
        }
    }

    /// Inserts the row under its (bucket, key), replacing the row that was
    /// there and any other row at the same blob location; creates the
    /// row's bucket if it is missing.
    pub fn upsert_object_row(&mut self, row: ObjectRow)
        requires
            old(self).wf(),
        ensures
            final(self).wf(),
            final(self)@ == old(self)@.upserted(row@),
    {
        let ghost start = self@;
        if self.find_bucket(&row.bucket_name).is_none() {
            self.add_bucket(row.bucket_name.clone());
        } else {
            assert(start.with_bucket(row@.bucket_name).buckets =~= start.buckets);
        }
        let ghost mid = *self;
        let filter = RowFilter::Displaced(
            row.bucket_name.clone(),
            row.key.clone(),
            row.file_path.clone(),
        );
        let (mut kept, _) = self.partition(&filter);
        let ghost m = self@.objects;
        let ghost sel = selected(m, filter, true);
        let ghost v = row@;
        let ghost target = start.upserted(v);
        let ghost kv = row_views(kept@);
        kept.push(row);
        self.objects = kept;
        self.model = Ghost(target);
        proof {
            assert(m == start.objects);
            assert(!sel.contains_key(v.id()));
            assert(target.objects =~= sel.insert(v.id(), v));
            lemma_enumerates_push(kv, sel, v);
            assert(row_views(self.objects@) =~= kv.push(v));
            assert(target.buckets == mid@.buckets);
            assert(self.buckets@ == mid.buckets@);
            assert forall|b: Seq<char>| #[trigger] self.model@.buckets.contains(b) implies exists|k: int|
                0 <= k < self.buckets@.len() && #[trigger] self.buckets@[k]@ == b by {
                assert(mid.model@.buckets.contains(b));
                let k = choose|k: int| 0 <= k < mid.buckets@.len() && #[trigger] mid.buckets@[k]@ == b;
                assert(self.buckets@[k]@ == b);
            }
            assert forall|a: (Seq<char>, Seq<char>), b: (Seq<char>, Seq<char>)|
                #![trigger target.objects[a], target.objects[b]]
                target.objects.contains_key(a) && target.objects.contains_key(b) && a != b
                    implies target.objects[a].file_path != target.objects[b].file_path by {
                if a != v.id() && b != v.id() {
                    assert(m[a] == target.objects[a]);
                    assert(m[b] == target.objects[b]);
                }
            }
        }
    }

    fn find_object(&self, bucket: &String, key: &String) -> (r: Option<usize>)
        requires
            self.wf(),
        ensures
            r matches Some(i) ==> i < self.objects@.len() && self.objects@[i as int]@.id() == (
            bucket@,
            key@,
            ),
            r is None <==> !self@.objects.contains_key((bucket@, key@)),
    {
        let mut i: usize = 0;
        while i < self.objects.len()
            invariant
                i <= self.objects@.len(),
                self.wf(),
                forall|j: int| 0 <= j < i ==> #[trigger] self.objects@[j]@.id() != (bucket@, key@),
            decreases self.objects@.len() - i,
        {
            if self.objects[i].bucket_name == *bucket && self.objects[i].key == *key {
                proof {
                    assert(row_views(self.objects@)[i as int] == self.objects@[i as int]@);
                    assert(row_views(self.objects@)[i as int].id() == (bucket@, key@));
                }
                return Some(i);
            }
            i = i + 1;
        }
        proof {
            let ov = row_views(self.objects@);
            if self@.objects.contains_key((bucket@, key@)) {
                let j = choose|j: int| 0 <= j < ov.len() && #[trigger] ov[j].id() == (bucket@, key@);
                assert(self.objects@[j]@ == ov[j]);
            }
        }
        None
    }

    /// The row of an object; fails if the catalog holds none.
    pub fn get_object_row(&self, bucket: &str, key: &str) -> (r: Result<ObjectRow, StorageError>)
        requires
            self.wf(),
        ensures
            r is Ok <==> self@.objects.contains_key((bucket@, key@)),
            r matches Ok(row) ==> row@ == self@.objects[(bucket@, key@)],
            r matches Err(e) ==> e matches StorageError::ObjectNotFound(k, b) && k@ == key@ && b@
                == bucket@,
    {
        let bucket = bucket.to_owned();
        let key = key.to_owned();
        match self.find_object(&bucket, &key) {
            Some(i) => {
                proof {
                    assert(row_views(self.objects@)[i as int] == self.objects@[i as int]@);
                }
                Ok(self.objects[i].clone())
            },
            None => Err(StorageError::ObjectNotFound(key, bucket)),
        }
    }

    /// Deletes the row of an object and hands it back, so that its blob can
    /// be removed; `None` if the catalog holds no such row.
    pub fn delete_object_row(&mut self, bucket: &str, key: &str) -> (r: Option<ObjectRow>)
        requires
            old(self).wf(),
        ensures
            final(self).wf(),
            final(self)@ == old(self)@.without_object((bucket@, key@)),
            r is Some <==> old(self)@.objects.contains_key((bucket@, key@)),
            r matches Some(row) ==> row@ == old(self)@.objects[(bucket@, key@)],
    {
        let ghost old_self = *self;
        let ghost id = (bucket@, key@);
        let filter = RowFilter::Object(bucket.to_owned(), key.to_owned());
        let (kept, mut dropped) = self.partition(&filter);
        let ghost m = self@.objects;
        let ghost dv = row_views(dropped@);
        self.objects = kept;
        self.model = Ghost(old_self@.without_object(id));
        proof {
            assert(selected(m, filter, true) =~= m.remove(id));
            assert(selected(m, filter, false) =~= if m.contains_key(id) {
                map![id => m[id]]
            } else {
                Map::empty()
            });
            let sd = selected(m, filter, false);
            assert forall|a: int| 0 <= a < dv.len() implies #[trigger] dv[a].id() == id by {
                assert(sd.contains_key(dv[a].id()));
            }
            if dv.len() > 1 {
                assert(dv[0].id() == id);
                assert(dv[1].id() == id);
            }
            if m.contains_key(id) {
                assert(sd.contains_key(id));
                let a = choose|a: int| 0 <= a < dv.len() && #[trigger] dv[a].id() == id;
            }
            assert(self.buckets@ == old_self.buckets@);
            assert forall|b: Seq<char>| #[trigger] self.model@.buckets.contains(b) implies exists|k: int|
                0 <= k < self.buckets@.len() && #[trigger] self.buckets@[k]@ == b by {
                let k = choose|k: int| 0 <= k < old_self.buckets@.len() && #[trigger] old_self.buckets@[k]@ == b;
                assert(self.buckets@[k]@ == b);
            }
        }
        if dropped.len() == 0 {
            None
        } else {
            proof {
                let sd = selected(m, filter, false);
                assert(dv[0] == dropped@[0]@);
                assert(sd.contains_key(dv[0].id()));
                assert(dv[0].id() == id);
                assert(m.contains_key(id));
                assert(dv.len() == 1);
            }
            dropped.pop()
        }
    }

    /// The keys of the objects in a bucket, each once.
    pub fn list_object_keys(&self, bucket: &str) -> (r: Vec<String>)
        requires
            self.wf(),
        ensures
            views(r@).no_duplicates(),
            views(r@).to_set() == self@.keys_in(bucket@),
    {
        let bucket = bucket.to_owned();
        let ghost ov = row_views(self.objects@);
        let ghost src: Seq<int> = Seq::empty();
        let mut out: Vec<String> = Vec::new();
        let mut i: usize = 0;
        while i < self.objects.len()
            invariant
                self.wf(),
                i <= self.objects@.len(),
                ov == row_views(self.objects@),
                src.len() == out@.len(),
                forall|a: int|
                    0 <= a < src.len() ==> 0 <= #[trigger] src[a] < i && ov[src[a]].bucket_name
                        == bucket@ && ov[src[a]].key == out@[a]@,
                forall|a: int, b: int| 0 <= a < b < src.len() ==> #[trigger] src[a] < #[trigger] src[b],
                forall|j: int|
                    0 <= j < i && #[trigger] ov[j].bucket_name == bucket@ ==> exists|a: int|
                        0 <= a < src.len() && #[trigger] src[a] == j,
            decreases self.objects@.len() - i,
        {
            if self.objects[i].bucket_name == bucket {
                let ghost old_src = src;
                proof {
                    src = src.push(i as int);
                }
                out.push(self.objects[i].key.clone());
                proof {
                    assert forall|j: int|
                        0 <= j < i + 1 && #[trigger] ov[j].bucket_name == bucket@ implies exists|a: int|
                        0 <= a < src.len() && #[trigger] src[a] == j by {
                        if j == i {
                            assert(src[src.len() - 1] == j);
                        } else {
                            let a = choose|a: int| 0 <= a < old_src.len() && #[trigger] old_src[a] == j;
                            assert(src[a] == j);
                        }
                    }
                }
            }
            i = i + 1;
        }
        proof {
            let v = views(out@);
            assert forall|a: int, b: int| 0 <= a < v.len() && 0 <= b < v.len() && a != b implies v[a]
                != v[b] by {
                assert(src[a] != src[b]);
                assert(ov[src[a]].id() != ov[src[b]].id());
            }
            assert forall|k: Seq<char>| v.to_set().contains(k) <==> self@.keys_in(bucket@).contains(k) by {
                if self@.objects.contains_key((bucket@, k)) {
                    let j = choose|j: int| 0 <= j < ov.len() && #[trigger] ov[j].id() == (bucket@, k);
                    let a = choose|a: int| 0 <= a < src.len() && #[trigger] src[a] == j;
                    assert(v[a] == k);
                }
                if v.contains(k) {
                    let a = choose|a: int| 0 <= a < v.len() && v[a] == k;
                    assert(ov[src[a]].id() == (bucket@, k));
                }
            }
            assert(v.to_set() =~= self@.keys_in(bucket@));
        }
        out
    }

    /// Every row of the catalog, each once.
    pub fn rows(&self) -> (r: Vec<ObjectRow>)
        requires
            self.wf(),
        ensures
            enumerates(row_views(r@), self@.objects),
    {
        let mut out: Vec<ObjectRow> = Vec::new();
        let mut i: usize = 0;
        while i < self.objects.len()
            invariant
                i <= self.objects@.len(),
                out@ == self.objects@.subrange(0, i as int),
            decreases self.objects@.len() - i,
        {
            out.push(self.objects[i].clone());
            i = i + 1;
            assert(out@ =~= self.objects@.subrange(0, i as int));
        }
        assert(out@ =~= self.objects@);
        out
    }

    /// Whether a row other than that of (bucket, key) records `path` as its
    /// blob location.
    pub fn location_taken(&self, path: &str, bucket: &str, key: &str) -> (r: bool)
        requires
            self.wf(),
        ensures
            r == self@.location_taken(path@, bucket@, key@),
    {
        let p = path.to_owned();
        let b = bucket.to_owned();
        let k = key.to_owned();
        let ghost ov = row_views(self.objects@);
        let mut i: usize = 0;
        while i < self.objects.len()
            invariant
                self.wf(),
                i <= self.objects@.len(),
                ov == row_views(self.objects@),
                p@ == path@,
                b@ == bucket@,
                k@ == key@,
                forall|j: int|
                    0 <= j < i ==> !(#[trigger] ov[j].id() != (bucket@, key@) && ov[j].file_path
                        == path@),
            decreases self.objects@.len() - i,
        {
            let row = &self.objects[i];
            assert(ov[i as int] == row@);
            if !(row.bucket_name == b && row.key == k) && row.file_path == p {
                let ghost id = ov[i as int].id();
                assert(self@.objects.contains_key(id) && self@.objects[id] == ov[i as int]);
                assert(id != (bucket@, key@));
                assert(self@.objects[id].file_path == path@);
                assert(self@.location_taken(path@, bucket@, key@));
                return true;
            }
            i = i + 1;
        }
        proof {
            if self@.location_taken(path@, bucket@, key@) {
                let id = choose|id: (Seq<char>, Seq<char>)| #[trigger]
                    self@.objects.contains_key(id) && id != (bucket@, key@)
                        && self@.objects[id].file_path == path@;
                let j = choose|j: int| 0 <= j < ov.len() && #[trigger] ov[j].id() == id;
                assert(ov[j] == self@.objects[id]);
            }
        }
        false
    }

    /// Whether a bucket of that name exists.
    pub fn bucket_exists(&self, name: &str) -> (r: bool)
        requires
            self.wf(),
        ensures
            r == self@.buckets.contains(name@),
    {
        let name = name.to_owned();
        self.find_bucket(&name).is_some()
    }

    /// Creates a bucket; fails if one of that name exists already.
    pub fn create_bucket(&mut self, name: &str) -> (r: Result<(), StorageError>)
        requires
            old(self).wf(),
        ensures
            final(self).wf(),
            r is Ok <==> !old(self)@.buckets.contains(name@),
            r is Ok ==> final(self)@ == old(self)@.with_bucket(name@),
            r matches Err(e) ==> {
                &&& final(self)@ == old(self)@
                &&& e matches StorageError::BucketAlreadyExistsInStorage(n)
                &&& n@ == name@
            },
    {
        let name = name.to_owned();
        if self.find_bucket(&name).is_some() {
            return Err(StorageError::BucketAlreadyExistsInStorage(name));
        }
        self.add_bucket(name);
        Ok(())
    }
}

} // verus!
