use s3_learning_project::catalog::{Catalog, ObjectRow};
use s3_learning_project::etag::calculate_etag;
use s3_learning_project::object::Object;
use s3_learning_project::storage::{
    blob_path, check_blob, check_integrity, object_from_blob, Storage, StorageError,
};
use std::collections::HashMap;

fn storage_with(buckets: &[&str]) -> Storage {
    let mut s = Storage::new("data".to_string());
    for b in buckets {
        s.create_bucket(b).unwrap();
    }
    s
}

fn object(key: &str, data: &[u8]) -> Object {
    Object::new(key.to_string(), data.to_vec(), None, None).unwrap()
}

fn sorted(mut v: Vec<String>) -> Vec<String> {
    v.sort();
    v
}

#[test]
fn etag_of_known_inputs() {
    assert_eq!(calculate_etag(b"hello"), "5d41402abc4b2a76b9719d911017c592");
    assert_eq!(calculate_etag(b""), "d41d8cd98f00b204e9800998ecf8427e");
}

#[test]
fn blob_location_is_under_root() {
    assert_eq!(blob_path("data", "docs", "a.txt"), "data/buckets/docs/a.txt");
}

#[test]
fn object_new_keeps_fields() {
    let o = Object::new("k".to_string(), vec![1, 2, 3], Some("text/plain".to_string()), None)
        .unwrap();
    assert_eq!(o.key, "k");
    assert_eq!(o.data, vec![1, 2, 3]);
    assert_eq!(o.content_type.as_deref(), Some("text/plain"));
    assert!(o.etag.is_none());
    assert!(o.last_modified > 0);
    assert_eq!(o.size(), 3);
}

#[test]
fn create_bucket_twice_fails() {
    let mut s = Storage::new("data".to_string());
    assert!(!s.bucket_exists("b"));
    assert!(s.create_bucket("b").is_ok());
    assert!(s.bucket_exists("b"));
    match s.create_bucket("b") {
        Err(StorageError::BucketAlreadyExistsInStorage(n)) => assert_eq!(n, "b"),
        other => panic!("unexpected {:?}", other.is_ok()),
    }
    assert_eq!(s.list_buckets(), vec!["b".to_string()]);
}

#[test]
fn put_then_get_round_trip() {
    let mut s = storage_with(&["b"]);
    let bytes = vec![0u8, 1, 2, 250, 255];
    let row = s.put_object("b", &object("k", &bytes)).unwrap();
    assert_eq!(row.file_path, "data/buckets/b/k");
    assert_eq!(row.size, 5);
    assert_eq!(row.etag, calculate_etag(&bytes));
    let found = s.get_object_row("b", "k").unwrap();
    let o = object_from_blob(&found, bytes.clone()).unwrap();
    assert_eq!(o.data, bytes);
    assert_eq!(o.etag.as_deref(), Some(calculate_etag(&o.data).as_str()));
    assert_eq!(o.key, "k");
    assert_eq!(o.size(), 5);
}

#[test]
fn put_into_missing_bucket_fails() {
    let mut s = storage_with(&[]);
    match s.put_object("nope", &object("k", b"x")) {
        Err(StorageError::BucketNotFoundInStorage(n)) => assert_eq!(n, "nope"),
        _ => panic!("expected BucketNotFoundInStorage"),
    }
    assert!(s.rows().is_empty());
}

#[test]
fn user_metadata_round_trip() {
    let mut s = storage_with(&["b"]);
    let mut meta = HashMap::new();
    meta.insert("colour".to_string(), "blue".to_string());
    let o = Object::new("k".to_string(), b"x".to_vec(), None, Some(meta.clone())).unwrap();
    let row = s.put_object("b", &o).unwrap();
    assert_eq!(row.metadata.as_deref(), Some("{\"colour\":\"blue\"}"));
    let back = object_from_blob(&row, b"x".to_vec()).unwrap();
    assert_eq!(back.user_metadata, Some(meta.clone()));
    let got = s.get_object("b", "k", b"x".to_vec()).unwrap();
    assert_eq!(got.user_metadata, Some(meta));
}

#[test]
fn overwrite_replaces_and_lists_once() {
    let mut s = storage_with(&["b"]);
    s.put_object("b", &object("k", b"one")).unwrap();
    s.put_object("b", &object("k", b"two")).unwrap();
    assert_eq!(s.list_objects("b").unwrap(), vec!["k".to_string()]);
    let row = s.get_object_row("b", "k").unwrap();
    assert_eq!(row.etag, calculate_etag(b"two"));
    assert_eq!(row.size, 3);
    assert!(object_from_blob(&row, b"two".to_vec()).is_ok());
    assert_eq!(s.rows().len(), 1);
}

#[test]
fn delete_object_twice_reports_not_found() {
    let mut s = storage_with(&["b"]);
    s.put_object("b", &object("k", b"v")).unwrap();
    let removed = s.delete_object("b", "k").unwrap();
    assert_eq!(removed.file_path, "data/buckets/b/k");
    match s.delete_object("b", "k") {
        Err(StorageError::ObjectNotFound(k, b)) => {
            assert_eq!(k, "k");
            assert_eq!(b, "b");
        }
        _ => panic!("expected ObjectNotFound"),
    }
}

#[test]
fn delete_bucket_removes_its_objects() {
    let mut s = storage_with(&["b", "c"]);
    s.put_object("b", &object("k1", b"1")).unwrap();
    s.put_object("b", &object("k2", b"2")).unwrap();
    s.put_object("c", &object("k1", b"3")).unwrap();
    let removed = s.delete_bucket("b").unwrap();
    let mut paths: Vec<String> = removed.iter().map(|r| r.file_path.clone()).collect();
    paths.sort();
    assert_eq!(paths, vec!["data/buckets/b/k1".to_string(), "data/buckets/b/k2".to_string()]);
    assert_eq!(s.list_buckets(), vec!["c".to_string()]);
    assert!(matches!(s.get_object_row("b", "k1"), Err(StorageError::ObjectNotFound(_, _))));
    assert!(matches!(s.list_objects("b"), Err(StorageError::BucketNotFoundInStorage(_))));
    assert_eq!(s.list_objects("c").unwrap(), vec!["k1".to_string()]);
    assert!(matches!(s.delete_bucket("b"), Err(StorageError::BucketNotFoundInStorage(_))));
}

#[test]
fn corrupted_blob_fails_get_and_scan() {
    let mut s = storage_with(&["b"]);
    let row = s.put_object("b", &object("k", b"hello")).unwrap();
    match object_from_blob(&row, b"hellO".to_vec()) {
        Err(StorageError::IntegrityError(m)) => {
            assert_eq!(m, "ETag mismatch for b/k - possible data corruption")
        }
        _ => panic!("expected IntegrityError"),
    }
    let entries = vec![(row.clone(), Some(b"hellO".to_vec()))];
    match Storage::check_consistency(&entries) {
        Err(StorageError::ConsistencyError(m)) => {
            assert_eq!(m, "ETag mismatch for b/k - possible data corruption")
        }
        _ => panic!("expected ConsistencyError"),
    }
}

#[test]
fn scan_reports_first_violation() {
    let mut s = storage_with(&["b"]);
    let r1 = s.put_object("b", &object("one", b"1")).unwrap();
    let r2 = s.put_object("b", &object("two", b"2")).unwrap();
    let r3 = s.put_object("b", &object("three", b"3")).unwrap();
    let clean = vec![
        (r1.clone(), Some(b"1".to_vec())),
        (r2.clone(), Some(b"2".to_vec())),
        (r3.clone(), Some(b"3".to_vec())),
    ];
    assert!(Storage::check_consistency(&clean).is_ok());
    assert!(Storage::check_consistency(&Vec::new()).is_ok());
    let broken = vec![
        (r1, Some(b"1".to_vec())),
        (r2, None),
        (r3, Some(b"x".to_vec())),
    ];
    match Storage::check_consistency(&broken) {
        Err(StorageError::ConsistencyError(m)) => {
            assert_eq!(m, "File not found for b/two at path data/buckets/b/two")
        }
        _ => panic!("expected ConsistencyError"),
    }
}

#[test]
fn check_blob_and_integrity() {
    let mut s = storage_with(&["b"]);
    let row = s.put_object("b", &object("k", b"abc")).unwrap();
    assert!(check_blob(&row, &Some(b"abc".to_vec())).is_ok());
    assert!(check_blob(&row, &None).is_err());
    assert!(check_integrity(&row, &calculate_etag(b"abc")).is_ok());
    assert!(check_integrity(&row, "0").is_err());
}

#[test]
fn docs_scenario() {
    let mut s = Storage::new("data".to_string());
    s.create_bucket("docs").unwrap();
    let row = s.put_object("docs", &object("a.txt", b"hello")).unwrap();
    let found = s.get_object_row("docs", "a.txt").unwrap();
    assert_eq!(found.file_path, row.file_path);
    let o = s.get_object("docs", "a.txt", b"hello".to_vec()).unwrap();
    assert_eq!(o.data, b"hello".to_vec());
    assert_eq!(o.size(), 5);
    assert_eq!(s.list_objects("docs").unwrap(), vec!["a.txt".to_string()]);
    assert!(s.delete_object("docs", "a.txt").is_ok());
    assert_eq!(s.list_objects("docs").unwrap(), Vec::<String>::new());
}

#[test]
fn restore_row_checks_location() {
    let mut s = storage_with(&[]);
    let row = ObjectRow {
        bucket_name: "b".to_string(),
        key: "k".to_string(),
        file_path: "data/buckets/b/k".to_string(),
        content_type: None,
        etag: calculate_etag(b"v"),
        size: 1,
        last_modified: 7,
        metadata: None,
    };
    let mut elsewhere = row.clone();
    elsewhere.file_path = "other/k".to_string();
    assert!(!s.restore_row(elsewhere));
    assert!(s.rows().is_empty());
    assert!(s.restore_row(row));
    assert!(s.bucket_exists("b"));
    assert_eq!(s.get_object_row("b", "k").unwrap().last_modified, 7);
}

#[test]
fn catalog_upsert_displaces_same_location() {
    let mut c = Catalog::new();
    let row = |b: &str, k: &str, p: &str| ObjectRow {
        bucket_name: b.to_string(),
        key: k.to_string(),
        file_path: p.to_string(),
        content_type: None,
        etag: "e".to_string(),
        size: 0,
        last_modified: 0,
        metadata: None,
    };
    c.upsert_object_row(row("a/b", "c", "root/buckets/a/b/c"));
    c.upsert_object_row(row("a", "b/c", "root/buckets/a/b/c"));
    assert!(c.get_object_row("a/b", "c").is_err());
    assert!(c.get_object_row("a", "b/c").is_ok());
    assert_eq!(sorted(c.list_buckets()), vec!["a".to_string(), "a/b".to_string()]);
    assert_eq!(c.list_object_keys("a/b"), Vec::<String>::new());
    let removed = c.delete_object_row("a", "b/c").unwrap();
    assert_eq!(removed.key, "b/c");
    assert!(c.delete_object_row("a", "b/c").is_none());
}

#[test]
fn get_object_checks_catalog_and_bytes() {
    let mut s = storage_with(&["b"]);
    s.put_object("b", &object("k", b"data")).unwrap();
    assert!(matches!(
        s.get_object("b", "missing", b"data".to_vec()),
        Err(StorageError::ObjectNotFound(_, _))
    ));
    assert!(matches!(
        s.get_object("b", "k", b"date".to_vec()),
        Err(StorageError::IntegrityError(_))
    ));
    let o = s.get_object("b", "k", b"data".to_vec()).unwrap();
    assert_eq!(o.data, b"data".to_vec());
    assert_eq!(o.etag, Some(calculate_etag(b"data")));
}

#[test]
fn unreadable_metadata_is_a_json_error() {
    let row = ObjectRow {
        bucket_name: "b".to_string(),
        key: "k".to_string(),
        file_path: "data/buckets/b/k".to_string(),
        content_type: Some("text/plain".to_string()),
        etag: calculate_etag(b"v"),
        size: 1,
        last_modified: 1,
        metadata: Some("not json".to_string()),
    };
    assert!(matches!(object_from_blob(&row, b"v".to_vec()), Err(StorageError::JsonError(_))));
    assert!(matches!(
        object_from_blob(&row, b"w".to_vec()),
        Err(StorageError::IntegrityError(_))
    ));
}

#[test]
fn bucket_emptiness() {
    let mut s = storage_with(&["b"]);
    assert!(s.is_empty("b"));
    s.put_object("b", &object("k", b"v")).unwrap();
    assert!(!s.is_empty("b"));
    s.delete_object("b", "k").unwrap();
    assert!(s.is_empty("b"));
}

#[test]
fn put_refuses_a_location_held_by_another_object() {
    let mut s = storage_with(&["a", "a/b"]);
    s.put_object("a/b", &object("c", b"first")).unwrap();
    match s.put_object("a", &object("b/c", b"second")) {
        Err(StorageError::InvalidPath(p)) => assert_eq!(p, "data/buckets/a/b/c"),
        _ => panic!("expected InvalidPath"),
    }
    let kept = s.get_object_row("a/b", "c").unwrap();
    assert_eq!(kept.etag, calculate_etag(b"first"));
    assert_eq!(s.rows().len(), 1);
    assert!(s.put_object("a/b", &object("c", b"third")).is_ok());
}

#[test]
fn overwrite_keeps_other_rows_and_takes_new_content() {
    let mut s = storage_with(&["b"]);
    s.put_object("b", &object("other", b"o")).unwrap();
    s.put_object("b", &object("k", b"one")).unwrap();
    let mut meta = HashMap::new();
    meta.insert("v".to_string(), "2".to_string());
    let second = Object::new(
        "k".to_string(),
        b"two".to_vec(),
        Some("text/plain".to_string()),
        Some(meta.clone()),
    )
    .unwrap();
    s.put_object("b", &second).unwrap();
    assert_eq!(sorted(s.list_objects("b").unwrap()), vec!["k".to_string(), "other".to_string()]);
    assert_eq!(s.get_object_row("b", "other").unwrap().etag, calculate_etag(b"o"));
    let got = s.get_object("b", "k", b"two".to_vec()).unwrap();
    assert_eq!(got.content_type.as_deref(), Some("text/plain"));
    assert_eq!(got.user_metadata, Some(meta));
    assert_eq!(got.etag, Some(calculate_etag(b"two")));
}
