use holger::repository::rust::RustRepo;
use holger::repository::rust_znippy::RustRepoZnippy;
use holger::repository::types::{RepositoryBackend, RepositoryError};
use holger::storage::ResolvedStorage;
use holger::types::{ArtifactFormat, ArtifactId};

fn json_header() -> Vec<(String, String)> {
    vec![("Content-Type".to_string(), "application/json".to_string())]
}

fn binary_header() -> Vec<(String, String)> {
    vec![("Content-Type".to_string(), "application/octet-stream".to_string())]
}

const PLACEHOLDER_CHECKSUM: &str =
    "50ccd0badd82e95d6f93cf46a39edd39b662ec9e3ea89a61382e7e274e1952ec";

#[test]
fn new_repository_has_no_storage() {
    let repo = RustRepo::new("crates1".to_string());
    assert_eq!(repo.name, "crates1");
    assert_eq!(repo.name(), "crates1");
    assert_eq!(repo.format(), ArtifactFormat::Rust);
    assert_eq!(repo.public_url, "https://127.0.0.1:8443");
    assert!(repo.in_backend.is_none());
    assert!(repo.out_backend.is_none());
    assert!(repo.artifacts.is_empty());
    assert!(!repo.is_writable());
}

#[test]
fn config_json_advertises_the_download_location() {
    let repo = RustRepo::new("crates1".to_string());
    let (status, headers, body) = repo.handle_http2_request("index/config.json", b"").unwrap();
    assert_eq!(status, 200);
    assert_eq!(headers, json_header());
    assert_eq!(
        String::from_utf8(body).unwrap(),
        "{\"dl\":\"https://127.0.0.1:8443/crates1/crates\",\"api\":null}"
    );
}

#[test]
fn config_json_is_served_under_the_repository_name_too() {
    let mut repo = RustRepo::new("rust-prod".to_string());
    repo.public_url = "https://registry.example:443".to_string();
    let direct = repo.handle_http2_request("index/config.json", b"").unwrap();
    let mounted = repo.handle_http2_request("/rust-prod/index/config.json", b"ignored").unwrap();
    assert_eq!(direct, mounted);
    assert_eq!(
        String::from_utf8(direct.2).unwrap(),
        "{\"dl\":\"https://registry.example:443/rust-prod/crates\",\"api\":null}"
    );
    let other = repo.handle_http2_request("other/index/config.json", b"").unwrap();
    assert_eq!(other, (404, Vec::new(), Vec::new()));
}

#[test]
fn metadata_holds_the_checksum_of_the_crate_file() {
    let repo = RustRepo::new("crates1".to_string());
    let checksum = RustRepo::crate_sha256_hex(b"FAKE_CRATE_CONTENT");
    assert_eq!(checksum, PLACEHOLDER_CHECKSUM);
    let expected = format!("[{{\"vers\":\"1.0.0\",\"deps\":[],\"cksum\":\"{}\"}}]", checksum);
    for path in ["index/se/rd/serde", "crates1/index/se/rd/serde", "/index/zz/zz/serde"] {
        let (status, headers, body) = repo.handle_http2_request(path, b"").unwrap();
        assert_eq!(status, 200);
        assert_eq!(headers, json_header());
        assert_eq!(String::from_utf8(body).unwrap(), expected);
    }
}

#[test]
fn download_serves_the_crate_file() {
    let repo = RustRepo::new("crates1".to_string());
    let (status, headers, body) =
        repo.handle_http2_request("crates/serde/1.0.0/download", b"").unwrap();
    assert_eq!(status, 200);
    assert_eq!(headers, binary_header());
    assert_eq!(body, b"FAKE_CRATE_CONTENT".to_vec());
}

#[test]
fn other_paths_are_not_found_with_an_empty_body() {
    let repo = RustRepo::new("crates1".to_string());
    for path in [
        "",
        "/",
        "index",
        "index/config.json/",
        "config.json",
        "crates/serde/1.0.0",
        "crates/serde/1.0.0/download/x",
        "crates/serde/1.0.0/upload",
        "crates1/crates/serde/1.0.0/download",
        "index/se/rd",
        "other/index/se/rd/serde",
        "anything",
    ] {
        let answer = repo.handle_http2_request(path, b"").unwrap();
        assert_eq!(answer, (404, Vec::new(), Vec::new()), "path {:?}", path);
    }
}

#[test]
fn fetch_misses_and_put_needs_an_input_storage() {
    let id = ArtifactId { namespace: None, name: "serde".to_string(), version: "1.0.0".to_string() };
    let mut repo = RustRepo::new("crates1".to_string());
    assert_eq!(repo.fetch(&id), Ok(None));
    assert_eq!(
        repo.put(&id, b"data"),
        Err(RepositoryError::ReadOnly { repository: "crates1".to_string() })
    );
    repo.in_backend = Some(ResolvedStorage::RocksdbLocal { path: "/data".to_string() });
    assert!(repo.is_writable());
    assert_eq!(repo.put(&id, b"data"), Ok(()));
    assert_eq!(repo.fetch(&id), Ok(None));
}

#[test]
fn read_only_message() {
    let e = RepositoryError::ReadOnly { repository: "crates1".to_string() };
    assert_eq!(e.message(), "Repository 'crates1' is read-only");
    let e = RepositoryError::Failed { message: "disk full".to_string() };
    assert_eq!(e.message(), "disk full");
}

#[test]
fn znippy_repository_serves_config_and_downloads_only() {
    let repo = RustRepoZnippy::new("rust-znippy".to_string());
    assert_eq!(repo.name(), "rust-znippy");
    assert_eq!(repo.format(), ArtifactFormat::Rust);
    assert!(!repo.is_writable());
    let (status, headers, body) =
        repo.handle_http2_request("rust-znippy/index/config.json", b"").unwrap();
    assert_eq!(status, 200);
    assert_eq!(headers, json_header());
    assert_eq!(
        String::from_utf8(body).unwrap(),
        "{\"dl\":\"https://127.0.0.1:8443/rust-znippy/crates\",\"api\":null}"
    );
    assert_eq!(
        repo.handle_http2_request("index/config.json", b"").unwrap().0,
        200
    );
    assert_eq!(
        repo.handle_http2_request("rust-znippy/index/se/rd/serde", b"").unwrap(),
        (404, Vec::new(), Vec::new())
    );
    assert_eq!(
        repo.handle_http2_request("index/se/rd/serde", b"").unwrap(),
        (404, Vec::new(), Vec::new())
    );
    assert_eq!(
        repo.handle_http2_request("crates/serde/1.0.0/download", b"").unwrap(),
        (200, binary_header(), b"FAKE_CRATE_CONTENT".to_vec())
    );
    assert_eq!(
        repo.handle_http2_request("nothing/here", b"").unwrap(),
        (404, Vec::new(), Vec::new())
    );
    let id = ArtifactId { namespace: None, name: "serde".to_string(), version: "1.0.0".to_string() };
    assert_eq!(repo.fetch(&id), Ok(None));
    assert_eq!(
        repo.put(&id, b"data"),
        Err(RepositoryError::ReadOnly { repository: "rust-znippy".to_string() })
    );
}
