use s3_learning_project::bucket::BucketError;
use s3_learning_project::object::{timestamp_from_seconds, Object, ObjectError};
use s3_learning_project::s3_service::{require_bucket, S3Error};
use s3_learning_project::storage::{Storage, StorageError};

#[test]
fn status_codes() {
    assert_eq!(S3Error::BucketAlreadyExists("b".to_string()).status_code(), 409);
    assert_eq!(S3Error::BucketNotFound("b".to_string()).status_code(), 404);
    assert_eq!(S3Error::ObjectNotFound("k".to_string(), "b".to_string()).status_code(), 404);
    let missing = S3Error::from_bucket_operation(StorageError::ObjectNotFound(
        "k".to_string(),
        "b".to_string(),
    ));
    assert_eq!(missing.status_code(), 404);
    let corrupt = S3Error::from_bucket_operation(StorageError::IntegrityError("x".to_string()));
    assert_eq!(corrupt.status_code(), 500);
    assert_eq!(
        S3Error::InternalStorageError("c".to_string(), StorageError::TransactionCommitError)
            .status_code(),
        500
    );
}

#[test]
fn create_bucket_error_mapping() {
    let e = S3Error::from_create_bucket(StorageError::BucketAlreadyExistsInStorage("b".to_string()));
    assert!(matches!(e, S3Error::BucketAlreadyExists(ref n) if n == "b"));
    let e = S3Error::from_create_bucket(StorageError::TransactionCommitError);
    match e {
        S3Error::InternalStorageError(c, StorageError::TransactionCommitError) => {
            assert_eq!(c, "Failed to create bucket in storage")
        }
        _ => panic!("expected InternalStorageError"),
    }
}

#[test]
fn delete_bucket_error_mapping() {
    let e = S3Error::from_delete_bucket(StorageError::BucketNotFoundInStorage("b".to_string()));
    assert!(matches!(e, S3Error::BucketNotFound(ref n) if n == "b"));
    let e = S3Error::from_delete_bucket(StorageError::TransactionCommitError);
    assert!(matches!(e, S3Error::InternalStorageError(ref c, _) if c == "Failed to delete bucket from storage"));
}

#[test]
fn bucket_operation_wraps_storage_error() {
    let e = S3Error::from_bucket_operation(StorageError::TransactionCommitError);
    assert!(matches!(
        e,
        S3Error::BucketOperationFailed(BucketError::Storage(StorageError::TransactionCommitError))
    ));
}

#[test]
fn require_bucket_checks_existence() {
    let mut s = Storage::new("data".to_string());
    assert!(matches!(require_bucket(&s, "b"), Err(S3Error::BucketNotFound(ref n)) if n == "b"));
    s.create_bucket("b").unwrap();
    assert!(require_bucket(&s, "b").is_ok());
}

#[test]
fn object_from_clock_reading() {
    let o = Object::stamped("k".to_string(), vec![7], None, None, Ok(1_700_000_000)).unwrap();
    assert_eq!(o.last_modified, 1_700_000_000);
    assert_eq!(o.key, "k");
    assert_eq!(o.data, vec![7]);
    assert!(o.etag.is_none());
    assert_eq!(timestamp_from_seconds(u64::MAX), i64::MAX);
    assert_eq!(timestamp_from_seconds(0), 0);
    let before_epoch = std::time::UNIX_EPOCH
        .duration_since(std::time::UNIX_EPOCH + std::time::Duration::from_secs(1))
        .unwrap_err();
    let r = Object::stamped("k".to_string(), vec![], None, None, Err(before_epoch));
    assert!(matches!(r, Err(ObjectError::SystemTime(_))));
}
