use holger::storage::{extract_s3_bucket, extract_s3_prefix};
use holger::storage::{ResolvedStorage, StorageEndpointInstance, StorageError};
use holger::types::{RepositoryType, StorageEndpoint, StorageLocation, StorageType};

fn declaration(ty: StorageType, location: StorageLocation, path: &str) -> StorageEndpoint {
    StorageEndpoint { name: "store".to_string(), ty, location, path: path.to_string() }
}

#[test]
fn bucket_and_prefix_of_an_s3_path() {
    assert_eq!(extract_s3_bucket("s3://bucket/some/prefix"), Ok("bucket".to_string()));
    assert_eq!(extract_s3_prefix("s3://bucket/some/prefix"), Ok("some/prefix".to_string()));
    assert_eq!(extract_s3_bucket("s3://bucket/"), Ok("bucket".to_string()));
    assert_eq!(extract_s3_prefix("s3://bucket/"), Ok("".to_string()));
    assert_eq!(extract_s3_bucket("s3:///x"), Ok("".to_string()));
    assert_eq!(extract_s3_prefix("s3:///x"), Ok("x".to_string()));
}

#[test]
fn s3_paths_need_scheme_and_prefix() {
    let no_scheme = StorageError::MissingS3Scheme { uri: "bucket/prefix".to_string() };
    assert_eq!(extract_s3_bucket("bucket/prefix"), Err(no_scheme.clone()));
    assert_eq!(extract_s3_prefix("bucket/prefix"), Err(no_scheme.clone()));
    assert_eq!(no_scheme.message(), "Invalid S3 path 'bucket/prefix', must start with s3://");
    let no_prefix = StorageError::MissingS3Prefix { uri: "s3://bucket".to_string() };
    assert_eq!(extract_s3_bucket("s3://bucket"), Err(no_prefix.clone()));
    assert_eq!(extract_s3_prefix("s3://bucket"), Err(no_prefix.clone()));
    assert_eq!(no_prefix.message(), "Invalid S3 path 's3://bucket', missing '/' after bucket");
    assert_eq!(
        extract_s3_bucket("S3://bucket/x"),
        Err(StorageError::MissingS3Scheme { uri: "S3://bucket/x".to_string() })
    );
}

#[test]
fn storage_declarations_resolve_by_technology_and_location() {
    assert_eq!(
        ResolvedStorage::from_config(&declaration(StorageType::Znippy, StorageLocation::Local, "/data/z")),
        Ok(ResolvedStorage::ZnippyLocal { path: "/data/z".to_string() })
    );
    assert_eq!(
        ResolvedStorage::from_config(&declaration(StorageType::Rocksdb, StorageLocation::Local, "/data/r")),
        Ok(ResolvedStorage::RocksdbLocal { path: "/data/r".to_string() })
    );
    assert_eq!(
        ResolvedStorage::from_config(&declaration(StorageType::Znippy, StorageLocation::S3, "s3://b/p/q")),
        Ok(ResolvedStorage::ZnippyS3 { bucket: "b".to_string(), prefix: "p/q".to_string() })
    );
    let remote = ResolvedStorage::from_config(&declaration(StorageType::Rocksdb, StorageLocation::S3, "s3://b/p"));
    assert_eq!(remote, Err(StorageError::RocksdbRemote { path: "s3://b/p".to_string() }));
    assert_eq!(
        remote.unwrap_err().message(),
        "RocksDB cannot use remote (S3) location: s3://b/p"
    );
    assert_eq!(
        ResolvedStorage::from_config(&declaration(StorageType::Znippy, StorageLocation::S3, "/local")),
        Err(StorageError::MissingS3Scheme { uri: "/local".to_string() })
    );
    assert_eq!(
        ResolvedStorage::from_config(&declaration(StorageType::Znippy, StorageLocation::S3, "s3://b")),
        Err(StorageError::MissingS3Prefix { uri: "s3://b".to_string() })
    );
}

#[test]
fn storage_instances_start_unwired() {
    let instance = StorageEndpointInstance::from_config(&declaration(
        StorageType::Znippy,
        StorageLocation::Local,
        "/data",
    ))
    .unwrap();
    assert_eq!(instance.name, "store");
    assert_eq!(instance.storage, ResolvedStorage::ZnippyLocal { path: "/data".to_string() });
    assert_eq!(instance.storage.duplicate(), instance.storage);
    assert!(instance.wired_in_repositories.is_empty());
    assert!(instance.wired_out_repositories.is_empty());
    assert!(StorageEndpointInstance::from_config(&declaration(
        StorageType::Rocksdb,
        StorageLocation::S3,
        "s3://b/p"
    ))
    .is_err());
}

#[test]
fn kinds_have_names() {
    for ty in [RepositoryType::Rust, RepositoryType::Pip, RepositoryType::Maven3, RepositoryType::Raw] {
        assert_eq!(RepositoryType::from_name(ty.endpoint_name()), Some(ty));
    }
    assert_eq!(RepositoryType::Rust.endpoint_name(), "rust");
    assert_eq!(RepositoryType::Pip.endpoint_name(), "pip");
    assert_eq!(RepositoryType::Maven3.endpoint_name(), "maven3");
    assert_eq!(RepositoryType::Raw.endpoint_name(), "raw");
    assert_eq!(RepositoryType::from_name("java"), None);
    assert_eq!(RepositoryType::from_name("Rust"), None);
    assert_eq!(StorageType::from_name("znippy"), Some(StorageType::Znippy));
    assert_eq!(StorageType::from_name("rocksdb"), Some(StorageType::Rocksdb));
    assert_eq!(StorageType::from_name("s3"), None);
    assert_eq!(StorageType::Znippy.name(), "znippy");
    assert_eq!(StorageType::Rocksdb.name(), "rocksdb");
}
