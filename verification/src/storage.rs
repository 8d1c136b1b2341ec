//! Storage endpoints: named byte stores that repositories read and write
//! through.

use vstd::prelude::*;
use vstd::string::*;
use crate::text::{find_byte_from, index_of, slice_str, starts_with, str_strip_prefix, utf8};
use crate::text::{lemma_ascii_byte_is_boundary, lemma_index_of_bounds};
use crate::text::SLASH;
use crate::types::{StorageEndpoint, StorageLocation, StorageType};

verus! {

/// Why a storage declaration cannot be resolved.
#[derive(Debug, Clone, PartialEq, Eq)]
pub enum StorageError {
    /// An S3 path does not start with `s3://`.
    MissingS3Scheme { uri: String },
    /// An S3 path has no `/` after the bucket.
    MissingS3Prefix { uri: String },
    /// RocksDB was asked to use a remote location.
    RocksdbRemote { path: String },
}

impl StorageError {
    /// The error as a sentence.
    pub open spec fn spec_message(self) -> Seq<char> {
        match self {
            StorageError::MissingS3Scheme { uri } => "Invalid S3 path '"@ + uri@
                + "', must start with s3://"@,
            StorageError::MissingS3Prefix { uri } => "Invalid S3 path '"@ + uri@
                + "', missing '/' after bucket"@,
            StorageError::RocksdbRemote { path } => "RocksDB cannot use remote (S3) location: "@
                + path@,
        }
    }

    /// The error as a sentence.
    pub fn message(&self) -> (text: String)
        ensures
            text@ == self.spec_message(),
    {
        match self {
            StorageError::MissingS3Scheme { uri } => {
                let mut text = "Invalid S3 path '".to_owned();
                text.append(uri.as_str());
                text.append("', must start with s3://");
                text
            },
            StorageError::MissingS3Prefix { uri } => {
                let mut text = "Invalid S3 path '".to_owned();
                text.append(uri.as_str());
                text.append("', missing '/' after bucket");
                text
            },
            StorageError::RocksdbRemote { path } => {
                let mut text = "RocksDB cannot use remote (S3) location: ".to_owned();
                text.append(path.as_str());
                text
            },
        }
    }
}

/// A storage backend with its location parameters resolved.
#[derive(Debug, Clone, PartialEq, Eq)]
pub enum ResolvedStorage {
    ZnippyLocal { path: String },
    ZnippyS3 { bucket: String, prefix: String },
    RocksdbLocal { path: String },
}

/// The text after `s3://` in an S3 path.
pub open spec fn s3_remainder(uri: Seq<u8>) -> Seq<u8> {
    uri.skip("s3://".spec_bytes().len() as int)
}

/// Whether `uri` starts with `s3://`.
pub open spec fn has_s3_scheme(uri: Seq<u8>) -> bool {
    starts_with(uri, "s3://".spec_bytes())
}

/// Whether the text after `s3://` holds a `/`, which ends the bucket.
pub open spec fn has_s3_prefix(uri: Seq<u8>) -> bool {
    index_of(s3_remainder(uri), SLASH) < s3_remainder(uri).len()
}

/// The bucket of an S3 path: the text between `s3://` and the next `/`.
pub open spec fn s3_bucket(uri: Seq<u8>) -> Seq<u8> {
    s3_remainder(uri).take(index_of(s3_remainder(uri), SLASH))
}

/// The prefix of an S3 path: everything after the `/` that ends the bucket.
pub open spec fn s3_prefix(uri: Seq<u8>) -> Seq<u8> {
    s3_remainder(uri).skip(index_of(s3_remainder(uri), SLASH) + 1)
}

/// Splits an S3 path into bucket and prefix.
fn split_s3_path<'a>(uri: &'a str) -> (r: Result<(&'a str, &'a str), StorageError>)
    ensures
        match r {
            Ok((bucket, prefix)) => has_s3_scheme(uri.spec_bytes()) && has_s3_prefix(
                uri.spec_bytes(),
            ) && bucket.spec_bytes() == s3_bucket(uri.spec_bytes()) && prefix.spec_bytes()
                == s3_prefix(uri.spec_bytes()),
            Err(StorageError::MissingS3Scheme { uri: u }) => !has_s3_scheme(uri.spec_bytes()) && u@
                == uri@,
            Err(StorageError::MissingS3Prefix { uri: u }) => has_s3_scheme(uri.spec_bytes())
                && !has_s3_prefix(uri.spec_bytes()) && u@ == uri@,
            Err(_) => false,
        },
{
    match str_strip_prefix(uri, "s3://") {
        None => Err(StorageError::MissingS3Scheme { uri: uri.to_owned() }),
        Some(rest) => {
            let bytes = rest.as_bytes();
            let cut: usize = find_byte_from(bytes, 0, SLASH);
            proof {
                assert(bytes@.skip(0) =~= bytes@);
                lemma_index_of_bounds(bytes@, SLASH);
            }
            if cut == bytes.len() {
                Err(StorageError::MissingS3Prefix { uri: uri.to_owned() })
            } else {
                proof {
                    vstd::utf8::encode_utf8_valid_utf8(rest@);
                    vstd::utf8::is_char_boundary_start_end_of_seq(bytes@);
                    lemma_ascii_byte_is_boundary(bytes@, cut as int);
                    assert(bytes@.subrange(0, cut as int) =~= bytes@.take(cut as int));
                    assert(bytes@.subrange(cut + 1, bytes@.len() as int) =~= bytes@.skip(cut + 1));
                }
                let bucket = slice_str(rest, 0, cut);
                let prefix = slice_str(rest, cut + 1, bytes.len());
                Ok((bucket, prefix))
            }
        },
    }
}

/// The bucket of an S3 path `s3://bucket/prefix...`.
pub fn extract_s3_bucket(uri: &str) -> (r: Result<String, StorageError>)
    ensures
        match r {
            Ok(bucket) => has_s3_scheme(uri.spec_bytes()) && has_s3_prefix(uri.spec_bytes())
                && utf8(bucket@) == s3_bucket(uri.spec_bytes()),
            Err(StorageError::MissingS3Scheme { uri: u }) => !has_s3_scheme(uri.spec_bytes()) && u@
                == uri@,
            Err(StorageError::MissingS3Prefix { uri: u }) => has_s3_scheme(uri.spec_bytes())
                && !has_s3_prefix(uri.spec_bytes()) && u@ == uri@,
            Err(_) => false,
        },
{
    match split_s3_path(uri) {
        Ok((bucket, _)) => Ok(bucket.to_owned()),
        Err(e) => Err(e),
    }
}

/// The prefix of an S3 path `s3://bucket/prefix...`.
pub fn extract_s3_prefix(uri: &str) -> (r: Result<String, StorageError>)
    ensures
        match r {
            Ok(prefix) => has_s3_scheme(uri.spec_bytes()) && has_s3_prefix(uri.spec_bytes())
                && utf8(prefix@) == s3_prefix(uri.spec_bytes()),
            Err(StorageError::MissingS3Scheme { uri: u }) => !has_s3_scheme(uri.spec_bytes()) && u@
                == uri@,
            Err(StorageError::MissingS3Prefix { uri: u }) => has_s3_scheme(uri.spec_bytes())
                && !has_s3_prefix(uri.spec_bytes()) && u@ == uri@,
            Err(_) => false,
        },
{
    match split_s3_path(uri) {
        Ok((_, prefix)) => Ok(prefix.to_owned()),
        Err(e) => Err(e),
    }
}

/// Whether `r` is what the declaration `config` resolves to.
pub open spec fn storage_resolves(
    config: StorageEndpoint,
    r: Result<ResolvedStorage, StorageError>,
) -> bool {
    match (config.ty, config.location) {
        (StorageType::Znippy, StorageLocation::Local) => r matches Ok(
            ResolvedStorage::ZnippyLocal { path },
        ) && path@ == config.path@,
        (StorageType::Rocksdb, StorageLocation::Local) => r matches Ok(
            ResolvedStorage::RocksdbLocal { path },
        ) && path@ == config.path@,
        (StorageType::Rocksdb, StorageLocation::S3) => r matches Err(
            StorageError::RocksdbRemote { path },
        ) && path@ == config.path@,
        (StorageType::Znippy, StorageLocation::S3) => if !has_s3_scheme(utf8(config.path@)) {
            r matches Err(StorageError::MissingS3Scheme { uri }) && uri@ == config.path@
        } else if !has_s3_prefix(utf8(config.path@)) {
            r matches Err(StorageError::MissingS3Prefix { uri }) && uri@ == config.path@
        } else {
            r matches Ok(ResolvedStorage::ZnippyS3 { bucket, prefix }) && utf8(bucket@)
                == s3_bucket(utf8(config.path@)) && utf8(prefix@) == s3_prefix(
                utf8(config.path@),
            )
        },
    }
}

/// Whether the declaration `config` resolves at all.
pub open spec fn storage_resolvable(config: StorageEndpoint) -> bool {
    match (config.ty, config.location) {
        (StorageType::Rocksdb, StorageLocation::S3) => false,
        (StorageType::Znippy, StorageLocation::S3) => has_s3_scheme(utf8(config.path@))
            && has_s3_prefix(utf8(config.path@)),
        _ => true,
    }
}

impl ResolvedStorage {
    /// A copy of the storage.
    pub fn duplicate(&self) -> (copy: ResolvedStorage)
        ensures
            copy == *self,
    {
        match self {
            ResolvedStorage::ZnippyLocal { path } => ResolvedStorage::ZnippyLocal {
                path: path.clone(),
            },
            ResolvedStorage::ZnippyS3 { bucket, prefix } => ResolvedStorage::ZnippyS3 {
                bucket: bucket.clone(),
                prefix: prefix.clone(),
            },
            ResolvedStorage::RocksdbLocal { path } => ResolvedStorage::RocksdbLocal {
                path: path.clone(),
            },
        }
    }

    /// Resolves a storage declaration.  Znippy stores may be local or on S3
    /// (`s3://bucket/prefix`); RocksDB stores are local only.
    pub fn from_config(config: &StorageEndpoint) -> (r: Result<ResolvedStorage, StorageError>)
        ensures
            storage_resolves(*config, r),
            r is Ok <==> storage_resolvable(*config),
    {
        match config.ty {
            StorageType::Znippy => match config.location {
                StorageLocation::Local => Ok(
                    ResolvedStorage::ZnippyLocal { path: config.path.clone() },
                ),
                StorageLocation::S3 => match split_s3_path(config.path.as_str()) {
                    Ok((bucket, prefix)) => Ok(
                        ResolvedStorage::ZnippyS3 {
                            bucket: bucket.to_owned(),
                            prefix: prefix.to_owned(),
                        },
                    ),
                    Err(e) => Err(e),
                },
            },
            StorageType::Rocksdb => match config.location {
                StorageLocation::Local => Ok(
                    ResolvedStorage::RocksdbLocal { path: config.path.clone() },
                ),
                StorageLocation::S3 => Err(
                    StorageError::RocksdbRemote { path: config.path.clone() },
                ),
            },
        }
    }
}

/// A named storage endpoint of a running instance, with the repositories
/// that read and write through it.
#[derive(Debug, Clone)]
pub struct StorageEndpointInstance {
    pub name: String,
    pub storage: ResolvedStorage,
    /// Positions of the repositories whose input side uses this endpoint.
    pub wired_in_repositories: Vec<usize>,
    /// Positions of the repositories whose output side uses this endpoint.
    pub wired_out_repositories: Vec<usize>,
}

impl StorageEndpointInstance {
    /// The unwired instance of a storage declaration: succeeds exactly when
    /// the declaration resolves.
    pub fn from_config(config: &StorageEndpoint) -> (r: Result<StorageEndpointInstance, StorageError>)
        ensures
            match r {
                Ok(instance) => instance.name@ == config.name@
                    && instance.wired_in_repositories@.len() == 0
                    && instance.wired_out_repositories@.len() == 0 && storage_resolves(
                    *config,
                    Ok(instance.storage),
                ),
                Err(e) => storage_resolves(*config, Err(e)),
            },
            r is Ok <==> storage_resolvable(*config),
    {
        match ResolvedStorage::from_config(config) {
            Ok(storage) => Ok(
                StorageEndpointInstance {
                    name: config.name.clone(),
                    storage,
                    wired_in_repositories: Vec::new(),
                    wired_out_repositories: Vec::new(),
                },
            ),
            Err(e) => Err(e),
        }
    }
}

} // verus!
