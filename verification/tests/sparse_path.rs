use holger::repository::rust::{RepoPath, RustRepo};

#[test]
fn sparse_path_test_1() {
    let path = RustRepo::sparse_path("a");
    assert_eq!(
        path,
        RepoPath {
            p1: "1",
            p2: "a",
            name: "a"
        }
    );
}

#[test]
fn sparse_path_test_2() {
    let path = RustRepo::sparse_path("ab");
    assert_eq!(
        path,
        RepoPath {
            p1: "2",
            p2: "ab",
            name: "ab"
        }
    );
}

#[test]
fn sparse_path_test_3() {
    let path = RustRepo::sparse_path("abc");
    assert_eq!(
        path,
        RepoPath {
            p1: "3",
            p2: "a",
            name: "abc"
        }
    );
}

#[test]
fn sparse_path_test_n() {
    let path = RustRepo::sparse_path("abcd");
    assert_eq!(
        path,
        RepoPath {
            p1: "ab",
            p2: "cd",
            name: "abcd"
        }
    );
}

#[test]
fn sparse_path_into_tuple() {
    let path: (&str, &str, &str) = RustRepo::sparse_path("abcd").into();
    assert_eq!(path, ("ab", "cd", "abcd"));
}

#[test]
fn sparse_path_of_a_long_name() {
    let path = RustRepo::sparse_path("tokio");
    assert_eq!(path, RepoPath { p1: "to", p2: "ki", name: "tokio" });
}

#[test]
fn sparse_path_round_trip() {
    for name in ["serde", "abcd", "tokio-rustls", "a_b-c"] {
        let path = RustRepo::sparse_path(name);
        let parts = [path.p1, path.p2, path.name];
        assert_eq!(parts[0], &name[0..2]);
        assert_eq!(parts[1], &name[2..4]);
        assert_eq!(RustRepo::sparse_crate_from_parts(&parts), Some(name));
    }
}

#[test]
fn sparse_crate_from_parts_wants_three_parts() {
    assert_eq!(RustRepo::sparse_crate_from_parts(&["se", "rd", "serde"]), Some("serde"));
    assert_eq!(RustRepo::sparse_crate_from_parts(&["zz", "zz", "serde"]), Some("serde"));
    assert_eq!(RustRepo::sparse_crate_from_parts(&["se", "rd"]), None);
    assert_eq!(RustRepo::sparse_crate_from_parts(&["se", "rd", "serde", "x"]), None);
    assert_eq!(RustRepo::sparse_crate_from_parts(&[]), None);
}

#[test]
fn crate_checksum_is_lower_case_hex_of_sha256() {
    assert_eq!(
        RustRepo::crate_sha256_hex(b"hello world"),
        "b94d27b9934d3e08a52e52d7da7dabfac484efe37a5380ee9088f7ace2efcde9"
    );
    assert_eq!(
        RustRepo::crate_sha256_hex(b""),
        "e3b0c44298fc1c149afbf4c8996fb92427ae41e4649b934ca495991b7852b855"
    );
    assert_eq!(
        RustRepo::crate_sha256_hex(b"abc"),
        "ba7816bf8f01cfea414140de5dae2223b00361a396177a9cb410ff61f20015ad"
    );
}

#[test]
fn crate_checksum_has_64_lower_case_hex_digits() {
    let inputs: [&[u8]; 4] = [b"", b"a", b"FAKE_CRATE_CONTENT", &[0u8, 255, 16, 15, 128]];
    for data in inputs {
        let checksum = RustRepo::crate_sha256_hex(data);
        assert_eq!(checksum.len(), 64);
        assert!(checksum.bytes().all(|b| b.is_ascii_digit() || (b'a'..=b'f').contains(&b)));
    }
}

#[test]
fn names_that_cannot_be_sharded_have_no_sparse_path() {
    assert_eq!(RustRepo::try_sparse_path(""), None);
    assert_eq!(RustRepo::try_sparse_path("éa"), None);
    assert_eq!(RustRepo::try_sparse_path("aéab"), None);
    assert_eq!(RustRepo::try_sparse_path("abcé"), None);
    assert_eq!(RustRepo::try_sparse_path("é"), Some(RepoPath { p1: "2", p2: "é", name: "é" }));
    assert_eq!(RustRepo::try_sparse_path("aé"), Some(RepoPath { p1: "3", p2: "a", name: "aé" }));
    assert_eq!(RustRepo::try_sparse_path("éé"), Some(RepoPath { p1: "é", p2: "é", name: "éé" }));
    assert_eq!(RustRepo::try_sparse_path("abcdé"), Some(RepoPath { p1: "ab", p2: "cd", name: "abcdé" }));
    assert_eq!(RustRepo::try_sparse_path("a"), Some(RepoPath { p1: "1", p2: "a", name: "a" }));
    assert_eq!(RustRepo::try_sparse_path("serde"), Some(RustRepo::sparse_path("serde")));
}
